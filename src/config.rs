use vstd::prelude::*;

verus! {

/// Settings read once at startup.
pub struct Config {
    pub redis: RedisConfig,
    pub server: ServerConfig,
    pub proxy: Option<ProxyConfig>,
    pub logging: Logging,
    pub funding_rate: FundingRateConfig,
}

pub struct Logging {
    /// Log filter, such as `debug` or `info`.
    pub level: String,
}

impl Default for Logging {
    fn default() -> (r: Self)
        ensures
            r.level@ == seq!['d', 'e', 'b', 'u', 'g'],
    {
        let level = "debug".to_owned();
        proof {
            reveal_strlit("debug");
        }
        Logging { level }
    }
}

/// Where the event queue's key/value store lives, and how to log in to it.
pub struct RedisConfig {
    pub host: String,
    pub port: u16,
    pub user: String,
    pub password: String,
}

pub struct ServerConfig {
    /// Number of shards, each served by one worker.
    pub worker_count: u16,
    /// Most bars kept per symbol and interval.
    pub max_kline_count: u32,
    /// Default lifetime of a queued event, in seconds.
    pub redis_data_expire: usize,
}

/// Thresholds of the funding-rate detector. Rates are in units of 10^-8.
#[derive(Clone, Copy, Debug, PartialEq, Eq, Structural)]
pub struct FundingRateConfig {
    /// A rate is reported only when its magnitude exceeds this.
    pub min_funding_rate: u64,
    /// A repeat is reported only when the rate moved by more than this.
    pub min_funding_rate_change: u64,
    /// A repeat is reported only when more than this many seconds have passed.
    pub funding_rate_interval: u64,
}

/// SOCKS5 proxy for the exchange connection.
pub struct ProxyConfig {
    pub addr: String,
}

} // verus!
