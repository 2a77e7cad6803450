use wardrobe::application_logging::{
    parse_log_destination, parse_log_format, parse_log_level, ApplicationLogDestination,
    ApplicationLogFormat, ApplicationLogLevel,
};
use wardrobe::config::transport::{is_loopback_bind, RawTransportSecurity, SecurityMode};
use wardrobe::config::{
    durability_policy_name, parse_durability_policy, RawCacheConfig, RawDataConfig,
    RawLoggingConfig, RawNetworkConfig, RawSecurityConfig, RawTransactionConfig, RawWalConfig,
    RawWardrobeConfig, TransactionRecoveryMode, WardrobeConfig,
};
use wardrobe::error::{Error, ErrorKind};
use wardrobe::value::JsonValue;
use wardrobe::wal::DurabilityPolicy;

fn text(section: &toml::Table, key: &str) -> Option<String> {
    section.get(key).map(|value| value.as_str().expect("text").to_string())
}

fn flag(section: &toml::Table, key: &str) -> Option<bool> {
    section.get(key).map(|value| value.as_bool().expect("flag"))
}

fn number(section: &toml::Table, key: &str) -> Option<u64> {
    section.get(key).map(|value| value.as_integer().expect("number") as u64)
}

fn size(section: &toml::Table, key: &str) -> Option<usize> {
    number(section, key).map(|n| n as usize)
}

fn list(section: &toml::Table, key: &str) -> Option<Vec<String>> {
    section.get(key).map(|value| {
        let items = value.as_array().expect("list");
        items.iter().map(|item| item.as_str().expect("text").to_string()).collect()
    })
}

fn from_toml_str(raw: &str) -> Result<WardrobeConfig, Error> {
    let table: toml::Table = toml::from_str(raw).expect("text should be TOML");
    let section = |name: &str| table.get(name).map(|value| value.as_table().expect("section"));
    RawWardrobeConfig {
        data: section("data").map(|s| RawDataConfig { directory: text(s, "directory") }),
        network: section("network").map(|s| RawNetworkConfig {
            tcp_enabled: flag(s, "tcp_enabled"),
            tcp_bind: text(s, "tcp_bind"),
            unix_socket_enabled: flag(s, "unix_socket_enabled"),
            unix_socket: text(s, "unix_socket"),
        }),
        cache: section("cache").map(|s| RawCacheConfig {
            max_cached_drawers: size(s, "max_cached_drawers"),
        }),
        wal: section("wal").map(|s| RawWalConfig {
            durability: text(s, "durability"),
            checkpoint_size_bytes: number(s, "checkpoint_size_bytes"),
            checkpoint_ops: number(s, "checkpoint_ops"),
            group_commit_window_ms: number(s, "group_commit_window_ms"),
            group_commit_max_batch: size(s, "group_commit_max_batch"),
        }),
        transactions: section("transactions").map(|s| RawTransactionConfig {
            enabled: flag(s, "enabled"),
            log_directory: text(s, "log_directory"),
            recovery: text(s, "recovery"),
        }),
        security: section("security").map(|s| RawSecurityConfig {
            access_control_file: text(s, "access_control_file"),
            auth_required: flag(s, "auth_required"),
            transport: RawTransportSecurity {
                mode: text(s, "mode"),
                security_dir: text(s, "security_dir"),
                server_names: list(s, "server_names"),
                server_ips: list(s, "server_ips"),
                server_certificate: text(s, "server_certificate"),
                server_private_key: text(s, "server_private_key"),
                trusted_client_ca_bundles: list(s, "trusted_client_ca_bundles"),
                unsafe_allow_remote_disabled: flag(s, "unsafe_allow_remote_disabled"),
            },
        }),
        logging: section("logging").map(|s| RawLoggingConfig {
            level: text(s, "level"),
            format: text(s, "format"),
            destination: text(s, "destination"),
            file: text(s, "file"),
        }),
    }
    .resolve()
}

#[test]
fn default_config_validates() {
    WardrobeConfig::default()
        .validate_for_server()
        .expect("default config should validate for server");
}

#[test]
fn toml_config_deserializes_and_omitted_sections_default() {
    let config = from_toml_str(
        r#"
            [data]
            directory = "./data"

            [network]
            tcp_bind = "127.0.0.1:3000"

            [cache]
            max_cached_drawers = 128

            [wal]
            durability = "grouped"
            group_commit_window_ms = 7
            group_commit_max_batch = 64
            checkpoint_size_bytes = 1048576
            checkpoint_ops = 1000

            [logging]
            level = "info"
            format = "json"
            destination = "stderr"
            "#,
    )
    .expect("config should parse");

    assert_eq!(config.data.directory, "./data");
    assert_eq!(config.network.tcp_bind, "127.0.0.1:3000");
    assert_eq!(config.cache.max_cached_drawers, Some(128));
    assert_eq!(config.wal.checkpoint_ops, 1000);
    assert_eq!(config.logging.level, ApplicationLogLevel::Info);
    assert!(matches!(
        config.wal.durability,
        DurabilityPolicy::Grouped { commit_window_ms: 7, max_batch_size: 64 }
    ));
    assert!(config.transactions.enabled);
}

#[test]
fn invalid_config_fails_with_useful_errors() {
    assert!(from_toml_str(
        r#"
                [wal]
                checkpoint_size_bytes = 0
                "#,
    )
    .expect_err("zero wal size should fail")
    .message
    .contains("checkpoint_size_bytes"));

    assert!(from_toml_str(
        r#"
                [cache]
                max_cached_drawers = 0
                "#,
    )
    .is_err());

    assert!(from_toml_str(
        r#"
                [logging]
                level = "verbose"
                "#,
    )
    .is_err());
}

#[test]
fn resolved_config_is_valid() {
    let config = from_toml_str("").expect("nothing given leaves the defaults");
    assert_eq!(config, WardrobeConfig::default());
    assert_eq!(config.validate(), Ok(()));
}

#[test]
fn durability_policies_have_names() {
    assert_eq!(parse_durability_policy(" Strict ", 5, 6), Ok(DurabilityPolicy::Strict));
    let grouped = parse_durability_policy("grouped", 5, 6).expect("grouped should parse");
    assert_eq!(grouped, DurabilityPolicy::Grouped { commit_window_ms: 5, max_batch_size: 6 });
    assert_eq!(durability_policy_name(&grouped), "grouped");
    assert_eq!(durability_policy_name(&DurabilityPolicy::Strict), "strict");
    let refused = parse_durability_policy("loose", 5, 6).expect_err("loose is no policy");
    assert_eq!(refused.kind(), ErrorKind::InvalidInput);
}

#[test]
fn recovery_modes_have_names() {
    for mode in [
        TransactionRecoveryMode::Automatic,
        TransactionRecoveryMode::Manual,
        TransactionRecoveryMode::Disabled,
    ] {
        assert_eq!(TransactionRecoveryMode::parse(mode.as_str()), Ok(mode));
    }
    assert!(TransactionRecoveryMode::parse("sometimes").is_err());
}

#[test]
fn server_needs_a_way_in() {
    let mut config = WardrobeConfig::default();
    config.network.tcp_enabled = false;
    config.network.unix_socket_enabled = false;
    assert_eq!(config.validate(), Ok(()));
    assert!(config.validate_for_server().is_err());
}

#[test]
fn summary_tells_the_settings() {
    let summary = WardrobeConfig::default().redacted_summary();
    let data = summary.get("data").expect("data");
    assert_eq!(
        data.get_str("directory"),
        Some(WardrobeConfig::default().data.directory.as_str())
    );
    assert_eq!(
        summary.get("wal").and_then(|wal| wal.get_str("durability")),
        Some(durability_policy_name(&WardrobeConfig::default().wal.durability))
    );
    assert!(matches!(summary, JsonValue::Object(_)));
}

#[test]
fn log_settings_are_read_without_regard_to_case() {
    assert_eq!(parse_log_level(" WARN "), Ok(ApplicationLogLevel::Warn));
    assert_eq!(parse_log_format("Json"), Ok(ApplicationLogFormat::Json));
    assert_eq!(parse_log_destination("FILE"), Ok(ApplicationLogDestination::File));
    assert!(parse_log_level("verbose").is_err());
    assert!(parse_log_format("xml").is_err());
    assert!(parse_log_destination("printer").is_err());
    assert!(from_toml_str("[logging]\ndestination = \"file\"").is_err());
}

#[test]
fn documented_security_settings_are_read() {
    let config = from_toml_str(
        r#"
            [data]
            directory = "./data"

            [network]
            tcp_enabled = true
            tcp_bind = "127.0.0.1:24842"
            unix_socket_enabled = false

            [security]
            mode = "managed"
            security_dir = "./security"
            server_names = ["localhost"]
            server_ips = ["127.0.0.1"]
            "#,
    )
    .expect("config should parse");
    let transport = &config.security.transport;
    assert_eq!(transport.mode, Some(SecurityMode::Managed));
    assert_eq!(transport.security_dir.as_deref(), Some("./security"));
    assert_eq!(transport.server_names, vec!["localhost".to_string()]);
    assert_eq!(transport.server_ips, vec!["127.0.0.1".to_string()]);
    config.validate_for_server().expect("a server should take it");

    let external = from_toml_str(
        r#"
            [security]
            mode = "external"
            server_certificate = "/etc/wardrobe-pki/server.crt"
            server_private_key = "/etc/wardrobe-pki/server.key"
            trusted_client_ca_bundles = ["a.crt", "b.crt"]
            "#,
    )
    .expect("config should parse");
    assert_eq!(external.security.transport.mode, Some(SecurityMode::External));
    assert_eq!(external.security.transport.trusted_client_ca_bundles.len(), 2);

    let refused = from_toml_str("[security]\nmode = \"open\"\n").expect_err("mode is unknown");
    assert_eq!(refused.kind(), ErrorKind::InvalidInput);
    assert_eq!(
        refused.message,
        "Unsupported security mode 'open'; expected managed, external, or disabled"
    );
}

#[test]
fn disabled_security_stays_local() {
    let settings = |bind: &str, more: &str| {
        from_toml_str(&format!(
            "[network]\ntcp_bind = \"{bind}\"\n[security]\nmode = \"disabled\"\n{more}"
        ))
        .expect("config should parse")
    };
    assert!(settings("127.0.0.1:24842", "").validate_for_server().is_ok());
    assert!(settings("localhost:24842", "").validate_for_server().is_ok());
    assert!(settings("[::1]:24842", "").validate_for_server().is_ok());
    let refused = settings("192.168.1.20:24842", "").validate_for_server().unwrap_err();
    assert_eq!(refused.kind(), ErrorKind::InvalidInput);
    assert!(settings("0.0.0.0:24842", "unsafe_allow_remote_disabled = true\n")
        .validate_for_server()
        .is_ok());
    assert!(!is_loopback_bind("wardrobe.lan:24842"));
    assert!(!is_loopback_bind("127.wardrobe.lan:24842"));
    assert!(!is_loopback_bind("127.0.0.1.5:1"));
    assert!(!is_loopback_bind("127.0.0.256:1"));
    assert!(!is_loopback_bind("127.0.1:1"));
    assert!(!is_loopback_bind("127.0.0.01:1"));
    assert!(is_loopback_bind("127.255.0.9:1"));
}
