use shatters_relay::config::{LogFormat, LoggingConfig, RelayConfig};

#[test]
fn usual_settings() {
    let config = RelayConfig::default();
    assert_eq!(config.server.listen_addr, "0.0.0.0:4433");
    assert_eq!(config.server.tls_cert_path, "cert.pem");
    assert_eq!(config.server.tls_key_path, "key.pem");
    assert!(!config.server.allow_self_signed_tls);
    assert_eq!(config.server.max_auth_timeout_secs, 10);
    assert_eq!(config.server.max_idle_timeout_secs, 30);
    assert_eq!(config.deaddrop.default_ttl_secs, 86_400);
    assert_eq!(config.deaddrop.max_per_drop, 1_000);
    assert_eq!(config.deaddrop.max_channels, 100_000);
    assert_eq!(config.deaddrop.cleanup_interval_secs, 60);
    assert_eq!(config.prekey.bundle_ttl_secs, 604_800);
    assert_eq!(config.prekey.max_prekeys_per_user, 100);
    assert_eq!(config.prekey.max_bundle_size_bytes, 4096);
    assert_eq!(config.prekey.cleanup_interval_secs, 300);
    assert_eq!(config.limits.max_subscriptions_per_conn, 50);
    assert_eq!(config.limits.max_connections, 10_000);
    assert_eq!(config.limits.max_total_channels, 100_000);
    assert_eq!(config.limits.requests_per_second, 100);
    assert_eq!(config.limits.burst_size, 200);
    assert_eq!(config.logging.level, "info");
    assert_eq!(config.logging.format, "pretty");
}

#[test]
fn only_json_is_json() {
    for (name, format) in [
        ("json", LogFormat::Json),
        ("pretty", LogFormat::Pretty),
        ("JSON", LogFormat::Pretty),
        ("jsonl", LogFormat::Pretty),
        ("", LogFormat::Pretty),
    ] {
        let logging = LoggingConfig {
            level: "info".to_string(),
            format: name.to_string(),
        };
        assert_eq!(logging.log_format(), format);
    }
}
