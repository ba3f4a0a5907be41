//! The relay's settings and their usual values.

use vstd::prelude::*;

verus! {

/// All settings.
#[derive(Debug, Clone)]
pub struct RelayConfig {
    pub server: ServerConfig,
    pub deaddrop: DeadDropConfig,
    pub prekey: PreKeyConfig,
    pub limits: LimitsConfig,
    pub logging: LoggingConfig,
}

/// Where and how the relay listens.
#[derive(Debug, Clone)]
pub struct ServerConfig {
    pub listen_addr: String,
    pub tls_cert_path: String,
    pub tls_key_path: String,
    pub allow_self_signed_tls: bool,
    pub max_auth_timeout_secs: u64,
    pub max_idle_timeout_secs: u64,
}

/// What is stored for those who are away, and for how long.
#[derive(Debug, Clone)]
pub struct DeadDropConfig {
    pub default_ttl_secs: u64,
    pub max_per_drop: usize,
    pub max_channels: usize,
    pub cleanup_interval_secs: u64,
}

/// What is logged, and how.
#[derive(Debug, Clone)]
pub struct LoggingConfig {
    pub level: String,
    pub format: String,
}

/// Which bundles of keys are stored, and for how long.
#[derive(Debug, Clone)]
pub struct PreKeyConfig {
    pub bundle_ttl_secs: u64,
    pub max_prekeys_per_user: usize,
    pub max_bundle_size_bytes: usize,
    pub cleanup_interval_secs: u64,
}

/// How much of the relay its clients may use.
#[derive(Debug, Clone)]
pub struct LimitsConfig {
    pub max_subscriptions_per_conn: usize,
    pub max_connections: usize,
    pub max_total_channels: usize,
    pub requests_per_second: u32,
    pub burst_size: u32,
}

/// How log lines are written.
#[derive(Debug, Clone, Copy, PartialEq, Eq, Structural)]
pub enum LogFormat {
    Json,
    Pretty,
}

impl ServerConfig {
    /// The usual values.
    pub open spec fn usual(self) -> bool {
        &&& self.listen_addr@ == "0.0.0.0:4433"@
        &&& self.tls_cert_path@ == "cert.pem"@
        &&& self.tls_key_path@ == "key.pem"@
        &&& !self.allow_self_signed_tls
        &&& self.max_auth_timeout_secs == 10
        &&& self.max_idle_timeout_secs == 30
    }
}

impl DeadDropConfig {
    /// The usual values.
    pub open spec fn usual() -> DeadDropConfig {
        DeadDropConfig {
            default_ttl_secs: 86_400,
            max_per_drop: 1_000,
            max_channels: 100_000,
            cleanup_interval_secs: 60,
        }
    }
}

impl PreKeyConfig {
    /// The usual values.
    pub open spec fn usual() -> PreKeyConfig {
        PreKeyConfig {
            bundle_ttl_secs: 604_800,
            max_prekeys_per_user: 100,
            max_bundle_size_bytes: 4096,
            cleanup_interval_secs: 300,
        }
    }
}

impl LimitsConfig {
    /// The usual values.
    pub open spec fn usual() -> LimitsConfig {
        LimitsConfig {
            max_subscriptions_per_conn: 50,
            max_connections: 10_000,
            max_total_channels: 100_000,
            requests_per_second: 100,
            burst_size: 200,
        }
    }
}

impl LoggingConfig {
    /// The usual values.
    pub open spec fn usual(self) -> bool {
        &&& self.level@ == "info"@
        &&& self.format@ == "pretty"@
    }

    /// How log lines are written: as JSON where the settings say so, readably otherwise.
    pub fn log_format(&self) -> (format: LogFormat)
        ensures
            format == if self.format@ == "json"@ {
                LogFormat::Json
            } else {
                LogFormat::Pretty
            },
    {
        proof {
            reveal_strlit("json");
        }
        let format = self.format.as_str();
        if format.unicode_len() == 4 && format.get_char(0) == 'j' && format.get_char(1) == 's'
            && format.get_char(2) == 'o' && format.get_char(3) == 'n' {
            assert(format@ =~= "json"@);
            LogFormat::Json
        } else {
            LogFormat::Pretty
        }
    }
}

impl Default for ServerConfig {
    fn default() -> (config: Self)
        ensures
            config.usual(),
    {
        ServerConfig {
            listen_addr: "0.0.0.0:4433".to_string(),
            tls_cert_path: "cert.pem".to_string(),
            tls_key_path: "key.pem".to_string(),
            allow_self_signed_tls: false,
            max_auth_timeout_secs: 10,
            max_idle_timeout_secs: 30,
        }
    }
}

impl Default for DeadDropConfig {
    fn default() -> (config: Self)
        ensures
            config == DeadDropConfig::usual(),
    {
        DeadDropConfig {
            default_ttl_secs: 86_400,
            max_per_drop: 1_000,
            max_channels: 100_000,
            cleanup_interval_secs: 60,
        }
    }
}

impl Default for LoggingConfig {
    fn default() -> (config: Self)
        ensures
            config.usual(),
    {
        LoggingConfig { level: "info".to_string(), format: "pretty".to_string() }
    }
}

impl Default for PreKeyConfig {
    fn default() -> (config: Self)
        ensures
            config == PreKeyConfig::usual(),
    {
        PreKeyConfig {
            bundle_ttl_secs: 604_800,
            max_prekeys_per_user: 100,
            max_bundle_size_bytes: 4096,
            cleanup_interval_secs: 300,
        }
    }
}

impl Default for LimitsConfig {
    fn default() -> (config: Self)
        ensures
            config == LimitsConfig::usual(),
    {
        LimitsConfig {
            max_subscriptions_per_conn: 50,
            max_connections: 10_000,
            max_total_channels: 100_000,
            requests_per_second: 100,
            burst_size: 200,
        }
    }
}

impl Default for RelayConfig {
    fn default() -> (config: Self)
        ensures
            config.server.usual(),
            config.deaddrop == DeadDropConfig::usual(),
            config.prekey == PreKeyConfig::usual(),
            config.limits == LimitsConfig::usual(),
            config.logging.usual(),
    {
        RelayConfig {
            server: ServerConfig::default(),
            deaddrop: DeadDropConfig::default(),
            prekey: PreKeyConfig::default(),
            limits: LimitsConfig::default(),
            logging: LoggingConfig::default(),
        }
    }
}

/// What the usual values are.
pub proof fn usual_values(server: ServerConfig, logging: LoggingConfig)
    ensures
        server.usual() <==> {
            &&& server.listen_addr@ == "0.0.0.0:4433"@
            &&& server.tls_cert_path@ == "cert.pem"@
            &&& server.tls_key_path@ == "key.pem"@
            &&& server.allow_self_signed_tls == false
            &&& server.max_auth_timeout_secs == 10
            &&& server.max_idle_timeout_secs == 30
        },
        logging.usual() <==> logging.level@ == "info"@ && logging.format@ == "pretty"@,
        DeadDropConfig::usual().default_ttl_secs == 24 * 60 * 60,
        DeadDropConfig::usual().max_per_drop == 1_000,
        DeadDropConfig::usual().max_channels == 100_000,
        DeadDropConfig::usual().cleanup_interval_secs == 60,
        PreKeyConfig::usual().bundle_ttl_secs == 7 * 24 * 60 * 60,
        PreKeyConfig::usual().max_prekeys_per_user == 100,
        PreKeyConfig::usual().max_bundle_size_bytes == 4096,
        PreKeyConfig::usual().cleanup_interval_secs == 300,
        LimitsConfig::usual().max_subscriptions_per_conn == 50,
        LimitsConfig::usual().max_connections == 10_000,
        LimitsConfig::usual().max_total_channels == 100_000,
        LimitsConfig::usual().requests_per_second == 100,
        LimitsConfig::usual().burst_size == 200,
{
}

} // verus!
