//! What a configuration that is written down comes to.
use crate::application_logging::{
    destination_named, format_named, level_named, ApplicationLogDestination, ApplicationLogFormat,
    ApplicationLogLevel,
};
use crate::config::transport::{
    is_loopback, octet, security_mode_named, transport_given, RawTransportSecurity, SecurityMode,
};
use crate::config::{
    config_refusal, config_summary, default_config, places_given, policy_named, recovery_named,
    resolved_config, server_refusal, watching_given, writing_given,
    ConfigModel, RawCacheConfig, RawDataConfig, RawLoggingConfig, RawNetworkConfig,
    RawSecurityConfig, RawTransactionConfig, RawWalConfig, RawWardrobeConfig,
    TransactionRecoveryMode, DEFAULT_GROUP_COMMIT_MAX_BATCH, DEFAULT_GROUP_COMMIT_WINDOW_MS,
};
use crate::connection::{digits_value, DEFAULT_NETWORK_PORT};
use crate::database::{DEFAULT_WAL_OPS_THRESHOLD, DEFAULT_WAL_SIZE_THRESHOLD};
use crate::error::ErrorKind;
use crate::text::{
    ascii_lower, decimal, lemma_first_index, lemma_last_index, opt_text, split_parts, starts_with,
    trimmed,
};
use crate::value::{Json, Number};
use crate::wal::DurabilityPolicy;
use vstd::prelude::*;

verus! {

/// Whether a level, a format or a destination is set by its own word, however it is spelled.
pub proof fn law_log_settings_are_words(raw: Seq<char>)
    ensures
        ({
            let word = ascii_lower(trimmed(raw));
            &&& level_named(raw) == Ok::<_, crate::error::Failure>(ApplicationLogLevel::Trace)
                <==> word == "trace"@
            &&& level_named(raw) == Ok::<_, crate::error::Failure>(ApplicationLogLevel::Debug)
                <==> word == "debug"@
            &&& level_named(raw) == Ok::<_, crate::error::Failure>(ApplicationLogLevel::Info)
                <==> word == "info"@
            &&& level_named(raw) == Ok::<_, crate::error::Failure>(ApplicationLogLevel::Warn)
                <==> word == "warn"@
            &&& level_named(raw) == Ok::<_, crate::error::Failure>(ApplicationLogLevel::Error)
                <==> word == "error"@
            &&& level_named(raw) == Ok::<_, crate::error::Failure>(ApplicationLogLevel::Off)
                <==> word == "off"@
            &&& format_named(raw) == Ok::<_, crate::error::Failure>(ApplicationLogFormat::Pretty)
                <==> word == "pretty"@
            &&& format_named(raw) == Ok::<_, crate::error::Failure>(ApplicationLogFormat::Json)
                <==> word == "json"@
            &&& destination_named(raw) == Ok::<_, crate::error::Failure>(
                ApplicationLogDestination::Stderr,
            ) <==> word == "stderr"@
            &&& destination_named(raw) == Ok::<_, crate::error::Failure>(
                ApplicationLogDestination::Stdout,
            ) <==> word == "stdout"@
            &&& destination_named(raw) == Ok::<_, crate::error::Failure>(
                ApplicationLogDestination::File,
            ) <==> word == "file"@
        }),
        level_named(raw) matches Err(f) ==> f.kind == ErrorKind::InvalidInput,
        format_named(raw) matches Err(f) ==> f.kind == ErrorKind::InvalidInput,
        destination_named(raw) matches Err(f) ==> f.kind == ErrorKind::InvalidInput,
{
    reveal_strlit("trace");
    reveal_strlit("debug");
    reveal_strlit("info");
    reveal_strlit("warn");
    reveal_strlit("error");
    reveal_strlit("off");
    reveal_strlit("pretty");
    reveal_strlit("json");
    reveal_strlit("stderr");
    reveal_strlit("stdout");
    reveal_strlit("file");
    assert("trace"@[0] == 't' && "debug"@[0] == 'd' && "error"@[0] == 'e');
    assert("info"@[0] == 'i' && "warn"@[0] == 'w');
    assert("trace"@.len() == 5 && "debug"@.len() == 5 && "error"@.len() == 5);
    assert("info"@.len() == 4 && "warn"@.len() == 4 && "off"@.len() == 3);
    assert("pretty"@.len() == 6 && "json"@.len() == 4);
    assert("stderr"@[3] == 'e' && "stdout"@[3] == 'o' && "file"@.len() == 4);
    assert("stderr"@.len() == 6 && "stdout"@.len() == 6);
}

/// Whether each mode of recovery, durability and security is set by its own words.
pub proof fn law_modes_are_words(raw: Seq<char>, window: u64, batch: usize)
    ensures
        ({
            let word = ascii_lower(trimmed(raw));
            &&& recovery_named(raw) == Ok::<_, crate::error::Failure>(
                TransactionRecoveryMode::Automatic,
            ) <==> word == "automatic"@ || word == "auto"@
            &&& recovery_named(raw) == Ok::<_, crate::error::Failure>(
                TransactionRecoveryMode::Manual,
            ) <==> word == "manual"@
            &&& recovery_named(raw) == Ok::<_, crate::error::Failure>(
                TransactionRecoveryMode::Disabled,
            ) <==> word == "disabled"@ || word == "off"@ || word == "none"@
            &&& policy_named(raw, window, batch) == Ok::<_, crate::error::Failure>(
                DurabilityPolicy::Strict,
            ) <==> word == "strict"@
            &&& policy_named(raw, window, batch) == Ok::<_, crate::error::Failure>(
                DurabilityPolicy::Grouped { commit_window_ms: window, max_batch_size: batch },
            ) <==> word == "grouped"@ && window > 0 && batch > 0
            &&& policy_named(raw, window, batch) is Err <==> word != "strict"@ && (word
                != "grouped"@ || window == 0 || batch == 0)
            &&& security_mode_named(raw) == Ok::<_, crate::error::Failure>(SecurityMode::Managed)
                <==> word == "managed"@
            &&& security_mode_named(raw) == Ok::<_, crate::error::Failure>(SecurityMode::External)
                <==> word == "external"@
            &&& security_mode_named(raw) == Ok::<_, crate::error::Failure>(SecurityMode::Disabled)
                <==> word == "disabled"@
        }),
{
    reveal_strlit("automatic");
    reveal_strlit("auto");
    reveal_strlit("manual");
    reveal_strlit("disabled");
    reveal_strlit("off");
    reveal_strlit("none");
    reveal_strlit("strict");
    reveal_strlit("grouped");
    reveal_strlit("managed");
    reveal_strlit("external");
    assert("automatic"@.len() == 9 && "auto"@.len() == 4 && "manual"@.len() == 6);
    assert("disabled"@.len() == 8 && "off"@.len() == 3 && "none"@.len() == 4);
    assert("auto"@[0] == 'a' && "none"@[0] == 'n');
    assert("strict"@.len() == 6 && "grouped"@.len() == 7);
    assert("managed"@.len() == 7 && "external"@.len() == 8);
    assert("external"@[0] == 'e' && "disabled"@[0] == 'd');
}

/// Whether a text is the one that is written down, or where none is, the usual one.
pub open spec fn is_text_of(value: Seq<char>, written: Option<String>, usual: Seq<char>) -> bool {
    match written {
        Some(s) => value == s@,
        None => value == usual,
    }
}

/// Whether a value is the one that is written down, or where none is, the usual one.
pub open spec fn is_value_of<T>(value: T, written: Option<T>, usual: T) -> bool {
    match written {
        Some(v) => value == v,
        None => value == usual,
    }
}

pub open spec fn has_data(m: ConfigModel, written: Option<RawDataConfig>) -> bool {
    match written {
        Some(w) => is_text_of(m.directory, w.directory, "./wardrobe"@),
        None => m.directory == "./wardrobe"@,
    }
}

pub open spec fn has_network(m: ConfigModel, written: Option<RawNetworkConfig>) -> bool {
    let bind = "127.0.0.1:"@ + decimal(DEFAULT_NETWORK_PORT as nat);
    match written {
        Some(w) => is_value_of(m.tcp_enabled, w.tcp_enabled, true) && is_text_of(
            m.tcp_bind,
            w.tcp_bind,
            bind,
        ) && is_value_of(m.unix_socket_enabled, w.unix_socket_enabled, false) && is_text_of(
            m.unix_socket,
            w.unix_socket,
            "/tmp/wardrobe.sock"@,
        ),
        None => m.tcp_enabled && m.tcp_bind == bind && !m.unix_socket_enabled && m.unix_socket
            == "/tmp/wardrobe.sock"@,
    }
}

pub open spec fn has_cache(m: ConfigModel, written: Option<RawCacheConfig>) -> bool {
    match written {
        Some(w) => m.max_cached_drawers == w.max_cached_drawers,
        None => m.max_cached_drawers is None,
    }
}

pub open spec fn has_wal(m: ConfigModel, written: Option<RawWalConfig>) -> bool {
    match written {
        Some(w) => is_value_of(
            m.checkpoint_size_bytes,
            w.checkpoint_size_bytes,
            DEFAULT_WAL_SIZE_THRESHOLD,
        ) && is_value_of(m.checkpoint_ops, w.checkpoint_ops, DEFAULT_WAL_OPS_THRESHOLD) && (
        match w.durability {
            Some(name) => match m.durability {
                DurabilityPolicy::Strict => ascii_lower(trimmed(name@)) == "strict"@,
                DurabilityPolicy::Grouped { commit_window_ms, max_batch_size } => ascii_lower(
                    trimmed(name@),
                ) == "grouped"@ && is_value_of(
                    commit_window_ms,
                    w.group_commit_window_ms,
                    DEFAULT_GROUP_COMMIT_WINDOW_MS,
                ) && is_value_of(
                    max_batch_size,
                    w.group_commit_max_batch,
                    DEFAULT_GROUP_COMMIT_MAX_BATCH,
                ),
            },
            None => m.durability is Strict,
        }),
        None => m.checkpoint_size_bytes == DEFAULT_WAL_SIZE_THRESHOLD && m.checkpoint_ops
            == DEFAULT_WAL_OPS_THRESHOLD && m.durability is Strict,
    }
}

pub open spec fn has_transactions(m: ConfigModel, written: Option<RawTransactionConfig>) -> bool {
    match written {
        Some(w) => is_value_of(m.transactions_enabled, w.enabled, true) && is_text_of(
            m.log_directory,
            w.log_directory,
            "./wardrobe/.transactions"@,
        ) && match w.recovery {
            Some(name) => recovery_named(name@) == Ok::<_, crate::error::Failure>(m.recovery),
            None => m.recovery is Automatic,
        },
        None => m.transactions_enabled && m.log_directory == "./wardrobe/.transactions"@
            && m.recovery is Automatic,
    }
}

pub open spec fn has_security(m: ConfigModel, written: Option<RawSecurityConfig>) -> bool {
    match written {
        Some(w) => is_text_of(
            m.access_control_file,
            w.access_control_file,
            "_wardrobe_access_control.json"@,
        ) && is_value_of(m.auth_required, w.auth_required, false) && transport_given(w.transport)
            == Ok::<_, crate::error::Failure>(m.transport),
        None => m.access_control_file == "_wardrobe_access_control.json"@ && !m.auth_required
            && m.transport.mode is None && !m.transport.unsafe_allow_remote_disabled,
    }
}

pub open spec fn has_logging(m: ConfigModel, written: Option<RawLoggingConfig>) -> bool {
    match written {
        Some(w) => m.logging.file == opt_text(w.file) && (match w.level {
            Some(name) => level_named(name@) == Ok::<_, crate::error::Failure>(m.logging.level),
            None => m.logging.level is Off,
        }) && (match w.format {
            Some(name) => format_named(name@) == Ok::<_, crate::error::Failure>(m.logging.format),
            None => m.logging.format is Pretty,
        }) && (match w.destination {
            Some(name) => destination_named(name@) == Ok::<_, crate::error::Failure>(
                m.logging.destination,
            ),
            None => m.logging.destination is Stderr,
        }),
        None => m.logging.level is Off && m.logging.format is Pretty && m.logging.destination is Stderr
            && m.logging.file is None,
    }
}

spec fn same_places(a: ConfigModel, b: ConfigModel) -> bool {
    a.directory == b.directory && a.tcp_enabled == b.tcp_enabled && a.tcp_bind == b.tcp_bind
        && a.unix_socket_enabled == b.unix_socket_enabled && a.unix_socket == b.unix_socket
        && a.max_cached_drawers == b.max_cached_drawers
}

spec fn same_writing(a: ConfigModel, b: ConfigModel) -> bool {
    a.durability == b.durability && a.checkpoint_size_bytes == b.checkpoint_size_bytes
        && a.checkpoint_ops == b.checkpoint_ops && a.transactions_enabled == b.transactions_enabled
        && a.log_directory == b.log_directory && a.recovery == b.recovery
}

spec fn same_watching(a: ConfigModel, b: ConfigModel) -> bool {
    a.access_control_file == b.access_control_file && a.auth_required == b.auth_required
        && a.transport == b.transport && a.logging == b.logging
}

proof fn lemma_places(
    data: Option<RawDataConfig>,
    network: Option<RawNetworkConfig>,
    cache: Option<RawCacheConfig>,
)
    ensures
        ({
            let m = places_given(default_config(), data, network, cache);
            has_data(m, data) && has_network(m, network) && has_cache(m, cache) && same_writing(
                m,
                default_config(),
            ) && same_watching(m, default_config())
        }),
{
}

proof fn lemma_writing(
    m: ConfigModel,
    wal: Option<RawWalConfig>,
    transactions: Option<RawTransactionConfig>,
)
    requires
        same_writing(m, default_config()),
    ensures
        writing_given(m, wal, transactions) matches Ok(n) ==> has_wal(n, wal) && has_transactions(
            n,
            transactions,
        ) && same_places(m, n) && same_watching(m, n),
{
}

proof fn lemma_watching(
    m: ConfigModel,
    security: Option<RawSecurityConfig>,
    logging: Option<RawLoggingConfig>,
)
    requires
        same_watching(m, default_config()),
    ensures
        watching_given(m, security, logging) matches Ok(n) ==> has_security(n, security)
            && has_logging(n, logging) && same_places(m, n) && same_writing(m, n),
{
}

/// Every setting is the one that is written down, or where none is, the usual one.
#[verifier::spinoff_prover]
pub proof fn law_settings_are_as_written(raw: RawWardrobeConfig)
    ensures
        resolved_config(raw) matches Ok(m) ==> has_data(m, raw.data) && has_network(m, raw.network)
            && has_cache(m, raw.cache) && has_wal(m, raw.wal) && has_transactions(
            m,
            raw.transactions,
        ) && has_security(m, raw.security) && has_logging(m, raw.logging),
{
    let a = places_given(default_config(), raw.data, raw.network, raw.cache);
    lemma_places(raw.data, raw.network, raw.cache);
    lemma_writing(a, raw.wal, raw.transactions);
    match writing_given(a, raw.wal, raw.transactions) {
        Ok(b) => {
            lemma_watching(b, raw.security, raw.logging);
            match watching_given(b, raw.security, raw.logging) {
                Ok(m) => {
                    lemma_kept(a, b, m, raw);
                    assert(resolved_config(raw) matches Ok(c) ==> c == m);
                },
                Err(_) => {
                    assert(resolved_config(raw) is Err);
                },
            }
        },
        Err(_) => {
            assert(resolved_config(raw) is Err);
        },
    }
}

proof fn lemma_kept(a: ConfigModel, b: ConfigModel, m: ConfigModel, raw: RawWardrobeConfig)
    requires
        same_places(a, b),
        same_places(b, m),
        same_writing(b, m),
        has_data(a, raw.data),
        has_network(a, raw.network),
        has_cache(a, raw.cache),
        has_wal(b, raw.wal),
        has_transactions(b, raw.transactions),
    ensures
        has_data(m, raw.data),
        has_network(m, raw.network),
        has_cache(m, raw.cache),
        has_wal(m, raw.wal),
        has_transactions(m, raw.transactions),
{
}

/// The settings for connections are those that are written down.
pub proof fn law_transport_is_as_written(raw: RawTransportSecurity, i: int)
    ensures
        match transport_given(raw) {
            Ok(m) => m.security_dir == opt_text(raw.security_dir) && m.server_certificate
                == opt_text(raw.server_certificate) && m.server_private_key == opt_text(
                raw.server_private_key,
            ) && m.unsafe_allow_remote_disabled == (raw.unsafe_allow_remote_disabled == Some(true))
                && (match raw.mode {
                Some(name) => m.mode is Some && security_mode_named(name@) == Ok::<
                    _,
                    crate::error::Failure,
                >(m.mode->0),
                None => m.mode is None,
            }) && (match raw.server_names {
                Some(names) => m.server_names.len() == names@.len() && (0 <= i < names@.len()
                    ==> m.server_names[i] == names@[i]@),
                None => m.server_names.len() == 0,
            }) && (match raw.server_ips {
                Some(names) => m.server_ips.len() == names@.len() && (0 <= i < names@.len()
                    ==> m.server_ips[i] == names@[i]@),
                None => m.server_ips.len() == 0,
            }) && (match raw.trusted_client_ca_bundles {
                Some(names) => m.trusted_client_ca_bundles.len() == names@.len() && (0 <= i
                    < names@.len() ==> m.trusted_client_ca_bundles[i] == names@[i]@),
                None => m.trusted_client_ca_bundles.len() == 0,
            }),
            Err(f) => f.kind == ErrorKind::InvalidInput && (raw.mode matches Some(name)
                && security_mode_named(name@) is Err),
        },
{
}

/// A configuration is accepted just where every place and limit in it can be used; a server also
/// needs a way in, and without certificates one from this machine alone.
pub proof fn law_usable_configurations_are_accepted(m: ConfigModel)
    ensures
        config_refusal(m) is None <==> {
            &&& m.directory.len() > 0
            &&& m.max_cached_drawers != Some(0usize)
            &&& m.checkpoint_size_bytes > 0
            &&& m.checkpoint_ops > 0
            &&& m.tcp_enabled ==> trimmed(m.tcp_bind).len() > 0
            &&& m.unix_socket_enabled ==> m.unix_socket.len() > 0
            &&& m.log_directory.len() > 0
            &&& m.access_control_file.len() > 0
            &&& m.logging.destination is File ==> (m.logging.file matches Some(path) && path.len()
                > 0)
        },
        server_refusal(m) is None <==> config_refusal(m) is None && (m.tcp_enabled
            || m.unix_socket_enabled) && (m.tcp_enabled && m.transport.mode == Some(
            SecurityMode::Disabled,
        ) ==> m.transport.unsafe_allow_remote_disabled || is_loopback(m.tcp_bind)),
        config_refusal(m) matches Some(f) ==> f.kind == ErrorKind::InvalidInput,
        server_refusal(m) matches Some(f) ==> f.kind == ErrorKind::InvalidInput,
{
}

proof fn lemma_digits_grow(s: Seq<char>, i: int, value: nat)
    ensures
        digits_value(s, i, value) matches Some(n) ==> n >= value,
    decreases s.len() - i,
{
    if 0 <= i < s.len() && '0' <= s[i] <= '9' {
        lemma_digits_grow(s, i + 1, (value * 10 + (s[i] as u32 - '0' as u32)) as nat);
    }
}

proof fn lemma_is_127(part: Seq<char>)
    requires
        octet(part) == Some(127nat),
    ensures
        part == "127"@,
{
    reveal_strlit("127");
    reveal_with_fuel(digits_value, 5);
    assert(part.len() > 0 && part[0] != '+');
    assert(digits_value(part, 0, 0) == Some(127nat));
    let a = part[0] as u32 - '0' as u32;
    if part.len() >= 4 {
        let b = part[1] as u32 - '0' as u32;
        let c = part[2] as u32 - '0' as u32;
        let d = part[3] as u32 - '0' as u32;
        assert(part[0] != '0');
        lemma_digits_grow(part, 4, (((a * 10 + b) * 10 + c) * 10 + d) as nat);
    }
    assert(part.len() == 3);
    let b = part[1] as u32 - '0' as u32;
    let c = part[2] as u32 - '0' as u32;
    assert((a * 10 + b) * 10 + c == 127);
    assert(a == 1 && b == 2 && c == 7);
    assert(part[0] == '1' && part[1] == '2' && part[2] == '7');
    assert(part =~= "127"@);
}

/// An address that is reached from this machine alone is that of this machine: by its name, or by
/// a number that starts with 127.
pub proof fn law_loopback_is_this_machine(bind: Seq<char>)
    ensures
        is_loopback(bind) ==> starts_with(trimmed(bind), "localhost"@) || starts_with(
            trimmed(bind),
            "[::1]"@,
        ) || starts_with(trimmed(bind), "127."@),
{
    if is_loopback(bind) {
        let all = trimmed(bind);
        let host = crate::config::transport::bind_host(bind);
        lemma_last_index(all, ':', all.len() as int);
        assert(host.len() <= all.len() && host =~= all.subrange(0, host.len() as int));
        if host == "localhost"@ || host == "[::1]"@ {
            assert(starts_with(all, host));
        } else {
            let parts = split_parts(host, '.');
            lemma_is_127(parts[0]);
            reveal_strlit("127");
            reveal_strlit("127.");
            lemma_first_index(host, '.', 0);
            let j = crate::text::first_index(host, '.', 0);
            assert(j < host.len());
            assert(parts[0] == host.subrange(0, j));
            assert(host.subrange(0, j).len() == 3);
            assert(all.subrange(0, 4) =~= "127."@) by {
                assert(all[3] == host[3]);
                assert forall|k: int| 0 <= k < 3 implies #[trigger] all.subrange(0, 4)[k]
                    == "127."@[k] by {
                    assert(host.subrange(0, j)[k] == host[k]);
                    assert(parts[0][k] == "127"@[k]);
                }
            }
        }
    }
}

/// A configuration is shown with its settings, and without those for connections: two that differ
/// in these alone are shown alike.
pub proof fn law_summary_shows_the_settings(m: ConfigModel, other: ConfigModel)
    requires
        other == (ConfigModel { transport: other.transport, ..m }),
    ensures
        config_summary(m) == config_summary(other),
        config_summary(m).get("data"@) matches Some(s) && s.get("directory"@) == Some(
            Json::Text(m.directory),
        ),
        config_summary(m).get("cache"@) matches Some(s) && s.get("max_cached_drawers"@) == Some(
            match m.max_cached_drawers {
                Some(n) => Json::Number(Number::PosInt(n as u64)),
                None => Json::Null,
            },
        ),
        config_summary(m).get("network"@) matches Some(s) && s.get("tcp_enabled"@) == Some(
            Json::Bool(m.tcp_enabled),
        ) && s.get("tcp_bind"@) == Some(Json::Text(m.tcp_bind)) && s.get("unix_socket_enabled"@)
            == Some(Json::Bool(m.unix_socket_enabled)) && s.get("unix_socket"@) == Some(
            Json::Text(m.unix_socket),
        ),
        config_summary(m).get("wal"@) matches Some(s) && s.get("durability"@) == Some(
            Json::Text(
                if m.durability is Strict {
                    "strict"@
                } else {
                    "grouped"@
                },
            ),
        ) && s.get("checkpoint_size_bytes"@) == Some(
            Json::Number(Number::PosInt(m.checkpoint_size_bytes)),
        ) && s.get("checkpoint_ops"@) == Some(Json::Number(Number::PosInt(m.checkpoint_ops))),
        config_summary(m).get("transactions"@) matches Some(s) && s.get("enabled"@) == Some(
            Json::Bool(m.transactions_enabled),
        ) && s.get("log_directory"@) == Some(Json::Text(m.log_directory)) && (s.get(
            "recovery"@,
        ) matches Some(Json::Text(word)) && recovery_named(word) == Ok::<_, crate::error::Failure>(
            m.recovery,
        )),
        config_summary(m).get("security"@) matches Some(s) && s.get("access_control_file"@) == Some(
            Json::Text(m.access_control_file),
        ) && s.get("auth_required"@) == Some(Json::Bool(m.auth_required)),
        config_summary(m).get("logging"@) matches Some(s) && s.get("file"@) == Some(
            match m.logging.file {
                Some(path) => Json::Text(path),
                None => Json::Null,
            },
        ),
{
    reveal_strlit("data");
    reveal_strlit("network");
    reveal_strlit("cache");
    reveal_strlit("wal");
    reveal_strlit("transactions");
    reveal_strlit("security");
    reveal_strlit("logging");
    assert("data"@.len() == 4 && "cache"@.len() == 5 && "wal"@.len() == 3);
    assert("transactions"@.len() == 12 && "security"@.len() == 8);
    assert("network"@.len() == 7 && "logging"@.len() == 7);
    assert("network"@[0] == 'n' && "logging"@[0] == 'l');
    reveal_strlit("tcp_enabled");
    reveal_strlit("tcp_bind");
    reveal_strlit("unix_socket_enabled");
    reveal_strlit("unix_socket");
    assert("tcp_enabled"@.len() == 11 && "tcp_bind"@.len() == 8);
    assert("unix_socket_enabled"@.len() == 19 && "unix_socket"@.len() == 11);
    assert("tcp_enabled"@[0] == 't' && "unix_socket"@[0] == 'u');
    reveal_strlit("durability");
    reveal_strlit("checkpoint_size_bytes");
    reveal_strlit("checkpoint_ops");
    assert("durability"@.len() == 10 && "checkpoint_size_bytes"@.len() == 21);
    assert("checkpoint_ops"@.len() == 14);
    reveal_strlit("enabled");
    reveal_strlit("log_directory");
    reveal_strlit("recovery");
    assert("enabled"@.len() == 7 && "log_directory"@.len() == 13 && "recovery"@.len() == 8);
    reveal_strlit("access_control_file");
    reveal_strlit("auth_required");
    assert("access_control_file"@.len() == 19 && "auth_required"@.len() == 13);
    reveal_strlit("level");
    reveal_strlit("format");
    reveal_strlit("destination");
    reveal_strlit("file");
    assert("level"@.len() == 5 && "format"@.len() == 6 && "destination"@.len() == 11);
    assert("file"@.len() == 4);
    lemma_recovery_words(m.recovery);
}

proof fn lemma_recovery_words(mode: TransactionRecoveryMode)
    ensures
        recovery_named(mode.name()) == Ok::<_, crate::error::Failure>(mode),
{
    let word = mode.name();
    reveal_strlit("automatic");
    reveal_strlit("manual");
    reveal_strlit("disabled");
    assert(word.len() > 0);
    assert(!crate::text::is_space(word[0]) && !crate::text::is_space(word.last()));
    crate::text::laws::lemma_solid_stays(word);
    assert(trimmed(word) == word);
    assert(ascii_lower(word) =~= word);
    law_modes_are_words(word, 1, 1);
}

} // verus!
