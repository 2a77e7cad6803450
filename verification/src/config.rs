//! The configuration of the database and of its server.
use crate::application_logging::{
    default_logging, logging_parts, logging_refusal, setting, setting_word,
    ApplicationLoggingConfig, LoggingModel,
};
use crate::connection::DEFAULT_NETWORK_PORT;
use crate::database::{DEFAULT_WAL_OPS_THRESHOLD, DEFAULT_WAL_SIZE_THRESHOLD};
use crate::config::transport::{
    default_transport, is_loopback, is_loopback_bind, transport_given, RawTransportSecurity,
    SecurityMode, TransportModel, TransportSecurity,
};
use crate::error::{bad_input, Error, Failure};
use crate::fields::TextMap;
use crate::text::{concat2, concat3, decimal, decimal_text, is_blank, opt_str, opt_text, owned, same, trimmed};
use crate::value::{group_value, json_fields, Json, JsonValue, Number};
use crate::wal::DurabilityPolicy;
use vstd::prelude::*;

pub mod laws;
pub mod transport;

verus! {

pub const DEFAULT_GROUP_COMMIT_WINDOW_MS: u64 = 5;

pub const DEFAULT_GROUP_COMMIT_MAX_BATCH: usize = 128;

#[derive(Debug, PartialEq, Eq)]
pub struct DataConfig {
    pub directory: String,
}

#[derive(Debug, PartialEq, Eq)]
pub struct NetworkConfig {
    pub tcp_enabled: bool,
    pub tcp_bind: String,
    pub unix_socket_enabled: bool,
    pub unix_socket: String,
}

#[derive(Debug, Clone, Copy, PartialEq, Eq)]
pub struct CacheConfig {
    pub max_cached_drawers: Option<usize>,
}

#[derive(Debug, Clone, Copy, PartialEq, Eq)]
pub struct WalConfig {
    pub durability: DurabilityPolicy,
    pub checkpoint_size_bytes: u64,
    pub checkpoint_ops: u64,
}

#[derive(Debug, PartialEq, Eq)]
pub struct TransactionConfig {
    pub enabled: bool,
    pub log_directory: String,
    pub recovery: TransactionRecoveryMode,
}

/// What is done with transactions that were cut off.
#[derive(Debug, Clone, Copy, PartialEq, Eq, Structural)]
pub enum TransactionRecoveryMode {
    Automatic,
    Manual,
    Disabled,
}

#[derive(Debug, PartialEq, Eq)]
pub struct SecurityConfig {
    pub access_control_file: String,
    pub auth_required: bool,
    pub transport: TransportSecurity,
}

/// The configuration.
#[derive(Debug, PartialEq, Eq)]
pub struct WardrobeConfig {
    pub data: DataConfig,
    pub network: NetworkConfig,
    pub cache: CacheConfig,
    pub wal: WalConfig,
    pub transactions: TransactionConfig,
    pub security: SecurityConfig,
    pub logging: ApplicationLoggingConfig,
}

/// The model of a configuration.
pub struct ConfigModel {
    pub directory: Seq<char>,
    pub tcp_enabled: bool,
    pub tcp_bind: Seq<char>,
    pub unix_socket_enabled: bool,
    pub unix_socket: Seq<char>,
    pub max_cached_drawers: Option<usize>,
    pub durability: DurabilityPolicy,
    pub checkpoint_size_bytes: u64,
    pub checkpoint_ops: u64,
    pub transactions_enabled: bool,
    pub log_directory: Seq<char>,
    pub recovery: TransactionRecoveryMode,
    pub access_control_file: Seq<char>,
    pub auth_required: bool,
    pub transport: TransportModel,
    pub logging: LoggingModel,
}

impl View for WardrobeConfig {
    type V = ConfigModel;

    open spec fn view(&self) -> ConfigModel {
        ConfigModel {
            directory: self.data.directory@,
            tcp_enabled: self.network.tcp_enabled,
            tcp_bind: self.network.tcp_bind@,
            unix_socket_enabled: self.network.unix_socket_enabled,
            unix_socket: self.network.unix_socket@,
            max_cached_drawers: self.cache.max_cached_drawers,
            durability: self.wal.durability,
            checkpoint_size_bytes: self.wal.checkpoint_size_bytes,
            checkpoint_ops: self.wal.checkpoint_ops,
            transactions_enabled: self.transactions.enabled,
            log_directory: self.transactions.log_directory@,
            recovery: self.transactions.recovery,
            access_control_file: self.security.access_control_file@,
            auth_required: self.security.auth_required,
            transport: self.security.transport@,
            logging: self.logging@,
        }
    }
}

/// The configuration in which nothing is set.
pub open spec fn default_config() -> ConfigModel {
    ConfigModel {
        directory: "./wardrobe"@,
        tcp_enabled: true,
        tcp_bind: "127.0.0.1:"@ + decimal(DEFAULT_NETWORK_PORT as nat),
        unix_socket_enabled: false,
        unix_socket: "/tmp/wardrobe.sock"@,
        max_cached_drawers: None,
        durability: DurabilityPolicy::Strict,
        checkpoint_size_bytes: DEFAULT_WAL_SIZE_THRESHOLD,
        checkpoint_ops: DEFAULT_WAL_OPS_THRESHOLD,
        transactions_enabled: true,
        log_directory: "./wardrobe/.transactions"@,
        recovery: TransactionRecoveryMode::Automatic,
        access_control_file: "_wardrobe_access_control.json"@,
        auth_required: false,
        transport: default_transport(),
        logging: default_logging(),
    }
}

impl Default for WardrobeConfig {
    fn default() -> (r: Self)
        ensures
            r@ == default_config(),
    {
        let port = decimal_text(DEFAULT_NETWORK_PORT as u64);
        WardrobeConfig {
            data: DataConfig { directory: owned("./wardrobe") },
            network: NetworkConfig {
                tcp_enabled: true,
                tcp_bind: concat2("127.0.0.1:", port.as_str()),
                unix_socket_enabled: false,
                unix_socket: owned("/tmp/wardrobe.sock"),
            },
            cache: CacheConfig { max_cached_drawers: None },
            wal: WalConfig {
                durability: DurabilityPolicy::Strict,
                checkpoint_size_bytes: DEFAULT_WAL_SIZE_THRESHOLD,
                checkpoint_ops: DEFAULT_WAL_OPS_THRESHOLD,
            },
            transactions: TransactionConfig {
                enabled: true,
                log_directory: owned("./wardrobe/.transactions"),
                recovery: TransactionRecoveryMode::Automatic,
            },
            security: SecurityConfig {
                access_control_file: owned("_wardrobe_access_control.json"),
                auth_required: false,
                transport: TransportSecurity::default(),
            },
            logging: ApplicationLoggingConfig::default(),
        }
    }
}

/// Why a configuration is refused: the first of its settings that is wrong.
pub open spec fn config_refusal(m: ConfigModel) -> Option<Failure> {
    if m.directory.len() == 0 {
        Some(bad_input("data.directory cannot be empty"@))
    } else if m.max_cached_drawers == Some(0usize) {
        Some(bad_input("cache.max_cached_drawers must be greater than zero when provided"@))
    } else if m.checkpoint_size_bytes == 0 {
        Some(bad_input("wal.checkpoint_size_bytes must be greater than zero"@))
    } else if m.checkpoint_ops == 0 {
        Some(bad_input("wal.checkpoint_ops must be greater than zero"@))
    } else if m.tcp_enabled && trimmed(m.tcp_bind).len() == 0 {
        Some(bad_input("network.tcp_bind cannot be empty when TCP is enabled"@))
    } else if m.unix_socket_enabled && m.unix_socket.len() == 0 {
        Some(bad_input("network.unix_socket cannot be empty when Unix sockets are enabled"@))
    } else if m.log_directory.len() == 0 {
        Some(bad_input("transactions.log_directory cannot be empty"@))
    } else if m.access_control_file.len() == 0 {
        Some(bad_input("security.access_control_file cannot be empty"@))
    } else {
        logging_refusal(m.logging)
    }
}

/// Why a configuration is refused for a server.
pub open spec fn server_refusal(m: ConfigModel) -> Option<Failure> {
    match config_refusal(m) {
        Some(f) => Some(f),
        None => if !m.tcp_enabled && !m.unix_socket_enabled {
            Some(bad_input("server network config must enable TCP or Unix socket listener"@))
        } else if m.tcp_enabled && m.transport.mode == Some(SecurityMode::Disabled)
            && !m.transport.unsafe_allow_remote_disabled && !is_loopback(m.tcp_bind) {
            Some(
                bad_input("security.mode disabled requires network.tcp_bind to be a loopback address"@),
            )
        } else {
            None
        },
    }
}

fn refuse(message: &str) -> (r: Result<(), Error>)
    ensures
        r matches Err(e) && e@ == bad_input(message@),
{
    Err(Error::invalid_input(owned(message)))
}

/// The name of a durability policy.
pub open spec fn policy_name(policy: DurabilityPolicy) -> Seq<char> {
    match policy {
        DurabilityPolicy::Strict => "strict"@,
        DurabilityPolicy::Grouped { .. } => "grouped"@,
    }
}

pub fn durability_policy_name(policy: &DurabilityPolicy) -> (r: &'static str)
    ensures
        r@ == policy_name(*policy),
{
    match policy {
        DurabilityPolicy::Strict => "strict",
        DurabilityPolicy::Grouped { .. } => "grouped",
    }
}

/// The policy that a setting names.
pub open spec fn policy_named(raw: Seq<char>, window: u64, batch: usize) -> Result<
    DurabilityPolicy,
    Failure,
> {
    let w = setting_word(raw);
    if w == "strict"@ {
        Ok(DurabilityPolicy::Strict)
    } else if w == "grouped"@ {
        if window == 0 {
            Err(bad_input("wal.group_commit_window_ms must be greater than zero"@))
        } else if batch == 0 {
            Err(bad_input("wal.group_commit_max_batch must be greater than zero"@))
        } else {
            Ok(DurabilityPolicy::Grouped { commit_window_ms: window, max_batch_size: batch })
        }
    } else {
        Err(bad_input("Unsupported WAL durability '"@ + w + "'; expected strict or grouped"@))
    }
}

pub fn parse_durability_policy(raw: &str, commit_window_ms: u64, max_batch_size: usize) -> (r:
    Result<DurabilityPolicy, Error>)
    ensures
        match (policy_named(raw@, commit_window_ms, max_batch_size), r) {
            (Ok(a), Ok(b)) => a == b,
            (Err(f), Err(e)) => e@ == f,
            _ => false,
        },
{
    let word = setting(raw);
    let w = word.as_str();
    if same(w, "strict") {
        Ok(DurabilityPolicy::Strict)
    } else if same(w, "grouped") {
        if commit_window_ms == 0 {
            return Err(
                Error::invalid_input(
                    owned("wal.group_commit_window_ms must be greater than zero"),
                ),
            );
        }
        if max_batch_size == 0 {
            return Err(
                Error::invalid_input(
                    owned("wal.group_commit_max_batch must be greater than zero"),
                ),
            );
        }
        Ok(DurabilityPolicy::Grouped { commit_window_ms, max_batch_size })
    } else {
        Err(
            Error::invalid_input(
                concat3("Unsupported WAL durability '", w, "'; expected strict or grouped"),
            ),
        )
    }
}

/// The mode that a setting names.
pub open spec fn recovery_named(raw: Seq<char>) -> Result<TransactionRecoveryMode, Failure> {
    let w = setting_word(raw);
    if w == "automatic"@ || w == "auto"@ {
        Ok(TransactionRecoveryMode::Automatic)
    } else if w == "manual"@ {
        Ok(TransactionRecoveryMode::Manual)
    } else if w == "disabled"@ || w == "off"@ || w == "none"@ {
        Ok(TransactionRecoveryMode::Disabled)
    } else {
        Err(
            bad_input(
                "Unsupported transaction recovery mode '"@ + w
                    + "'; expected automatic, manual, or disabled"@,
            ),
        )
    }
}

impl TransactionRecoveryMode {
    pub open spec fn name(self) -> Seq<char> {
        match self {
            TransactionRecoveryMode::Automatic => "automatic"@,
            TransactionRecoveryMode::Manual => "manual"@,
            TransactionRecoveryMode::Disabled => "disabled"@,
        }
    }

    pub fn parse(raw: &str) -> (r: Result<Self, Error>)
        ensures
            match (recovery_named(raw@), r) {
                (Ok(a), Ok(b)) => a == b,
                (Err(f), Err(e)) => e@ == f,
                _ => false,
            },
    {
        let word = setting(raw);
        let w = word.as_str();
        if same(w, "automatic") || same(w, "auto") {
            Ok(TransactionRecoveryMode::Automatic)
        } else if same(w, "manual") {
            Ok(TransactionRecoveryMode::Manual)
        } else if same(w, "disabled") || same(w, "off") || same(w, "none") {
            Ok(TransactionRecoveryMode::Disabled)
        } else {
            Err(
                Error::invalid_input(
                    concat3(
                        "Unsupported transaction recovery mode '",
                        w,
                        "'; expected automatic, manual, or disabled",
                    ),
                ),
            )
        }
    }

    pub fn as_str(self) -> (r: &'static str)
        ensures
            r@ == self.name(),
    {
        match self {
            TransactionRecoveryMode::Automatic => "automatic",
            TransactionRecoveryMode::Manual => "manual",
            TransactionRecoveryMode::Disabled => "disabled",
        }
    }
}

impl WardrobeConfig {
    pub fn validate(&self) -> (r: Result<(), Error>)
        ensures
            match (config_refusal(self@), r) {
                (None, Ok(())) => true,
                (Some(f), Err(e)) => e@ == f,
                _ => false,
            },
    {
        let no_cache = match self.cache.max_cached_drawers {
            Some(n) => n == 0,
            None => false,
        };
        if self.data.directory.as_str().is_empty() {
            refuse("data.directory cannot be empty")
        } else if no_cache {
            refuse("cache.max_cached_drawers must be greater than zero when provided")
        } else if self.wal.checkpoint_size_bytes == 0 {
            refuse("wal.checkpoint_size_bytes must be greater than zero")
        } else if self.wal.checkpoint_ops == 0 {
            refuse("wal.checkpoint_ops must be greater than zero")
        } else if self.network.tcp_enabled && is_blank(self.network.tcp_bind.as_str()) {
            refuse("network.tcp_bind cannot be empty when TCP is enabled")
        } else if self.network.unix_socket_enabled && self.network.unix_socket.as_str().is_empty() {
            refuse("network.unix_socket cannot be empty when Unix sockets are enabled")
        } else if self.transactions.log_directory.as_str().is_empty() {
            refuse("transactions.log_directory cannot be empty")
        } else if self.security.access_control_file.as_str().is_empty() {
            refuse("security.access_control_file cannot be empty")
        } else {
            self.logging.validate()
        }
    }

    pub fn validate_for_server(&self) -> (r: Result<(), Error>)
        ensures
            match (server_refusal(self@), r) {
                (None, Ok(())) => true,
                (Some(f), Err(e)) => e@ == f,
                _ => false,
            },
    {
        match self.validate() {
            Ok(()) => {},
            Err(e) => {
                return Err(e);
            },
        }
        if !self.network.tcp_enabled && !self.network.unix_socket_enabled {
            return refuse("server network config must enable TCP or Unix socket listener");
        }
        let plain = match self.security.transport.mode {
            Some(SecurityMode::Disabled) => true,
            _ => false,
        };
        if self.network.tcp_enabled && plain
            && !self.security.transport.unsafe_allow_remote_disabled && !is_loopback_bind(
            self.network.tcp_bind.as_str(),
        ) {
            refuse("security.mode disabled requires network.tcp_bind to be a loopback address")
        } else {
            Ok(())
        }
    }
}

/// A configuration as it is written down: what is not given is left out.
pub struct RawWardrobeConfig {
    pub data: Option<RawDataConfig>,
    pub network: Option<RawNetworkConfig>,
    pub cache: Option<RawCacheConfig>,
    pub wal: Option<RawWalConfig>,
    pub transactions: Option<RawTransactionConfig>,
    pub security: Option<RawSecurityConfig>,
    pub logging: Option<RawLoggingConfig>,
}

pub struct RawDataConfig {
    pub directory: Option<String>,
}

pub struct RawNetworkConfig {
    pub tcp_enabled: Option<bool>,
    pub tcp_bind: Option<String>,
    pub unix_socket_enabled: Option<bool>,
    pub unix_socket: Option<String>,
}

pub struct RawCacheConfig {
    pub max_cached_drawers: Option<usize>,
}

pub struct RawWalConfig {
    pub durability: Option<String>,
    pub checkpoint_size_bytes: Option<u64>,
    pub checkpoint_ops: Option<u64>,
    pub group_commit_window_ms: Option<u64>,
    pub group_commit_max_batch: Option<usize>,
}

pub struct RawTransactionConfig {
    pub enabled: Option<bool>,
    pub log_directory: Option<String>,
    pub recovery: Option<String>,
}

pub struct RawSecurityConfig {
    pub access_control_file: Option<String>,
    pub auth_required: Option<bool>,
    pub transport: RawTransportSecurity,
}

pub struct RawLoggingConfig {
    pub level: Option<String>,
    pub format: Option<String>,
    pub destination: Option<String>,
    pub file: Option<String>,
}

/// The value that is given, or the one there is.
pub open spec fn given<T>(value: Option<T>, default: T) -> T {
    match value {
        Some(v) => v,
        None => default,
    }
}

/// The text that is given, or the one there is.
pub open spec fn given_text(value: Option<String>, default: Seq<char>) -> Seq<char> {
    match value {
        Some(s) => s@,
        None => default,
    }
}

pub open spec fn data_given(m: ConfigModel, raw: RawDataConfig) -> ConfigModel {
    ConfigModel { directory: given_text(raw.directory, m.directory), ..m }
}

pub open spec fn network_given(m: ConfigModel, raw: RawNetworkConfig) -> ConfigModel {
    ConfigModel {
        tcp_enabled: given(raw.tcp_enabled, m.tcp_enabled),
        tcp_bind: given_text(raw.tcp_bind, m.tcp_bind),
        unix_socket_enabled: given(raw.unix_socket_enabled, m.unix_socket_enabled),
        unix_socket: given_text(raw.unix_socket, m.unix_socket),
        ..m
    }
}

pub open spec fn wal_given(m: ConfigModel, raw: RawWalConfig) -> Result<ConfigModel, Failure> {
    let rest = ConfigModel {
        checkpoint_size_bytes: given(raw.checkpoint_size_bytes, m.checkpoint_size_bytes),
        checkpoint_ops: given(raw.checkpoint_ops, m.checkpoint_ops),
        ..m
    };
    match raw.durability {
        None => Ok(rest),
        Some(name) => match policy_named(
            name@,
            given(raw.group_commit_window_ms, DEFAULT_GROUP_COMMIT_WINDOW_MS),
            given(raw.group_commit_max_batch, DEFAULT_GROUP_COMMIT_MAX_BATCH),
        ) {
            Ok(durability) => Ok(ConfigModel { durability, ..rest }),
            Err(f) => Err(f),
        },
    }
}

pub open spec fn transactions_given(m: ConfigModel, raw: RawTransactionConfig) -> Result<
    ConfigModel,
    Failure,
> {
    let rest = ConfigModel {
        transactions_enabled: given(raw.enabled, m.transactions_enabled),
        log_directory: given_text(raw.log_directory, m.log_directory),
        ..m
    };
    match raw.recovery {
        None => Ok(rest),
        Some(name) => match recovery_named(name@) {
            Ok(recovery) => Ok(ConfigModel { recovery, ..rest }),
            Err(f) => Err(f),
        },
    }
}

pub open spec fn security_given(m: ConfigModel, raw: RawSecurityConfig) -> Result<
    ConfigModel,
    Failure,
> {
    match transport_given(raw.transport) {
        Ok(transport) => Ok(
            ConfigModel {
                access_control_file: given_text(raw.access_control_file, m.access_control_file),
                auth_required: given(raw.auth_required, m.auth_required),
                transport,
                ..m
            },
        ),
        Err(f) => Err(f),
    }
}

pub open spec fn logging_given(m: ConfigModel, raw: RawLoggingConfig) -> Result<
    ConfigModel,
    Failure,
> {
    match logging_parts(
        opt_text(raw.level),
        opt_text(raw.format),
        opt_text(raw.destination),
        opt_text(raw.file),
    ) {
        Ok(logging) => Ok(ConfigModel { logging, ..m }),
        Err(f) => Err(f),
    }
}

/// A configuration with the places and limits that are written down.
pub open spec fn places_given(
    m: ConfigModel,
    data: Option<RawDataConfig>,
    network: Option<RawNetworkConfig>,
    cache: Option<RawCacheConfig>,
) -> ConfigModel {
    let a = match data {
        Some(data) => data_given(m, data),
        None => m,
    };
    let b = match network {
        Some(network) => network_given(a, network),
        None => a,
    };
    match cache {
        Some(cache) => ConfigModel { max_cached_drawers: cache.max_cached_drawers, ..b },
        None => b,
    }
}

/// A configuration with the rules for writing that are written down.
pub open spec fn writing_given(
    m: ConfigModel,
    wal: Option<RawWalConfig>,
    transactions: Option<RawTransactionConfig>,
) -> Result<ConfigModel, Failure> {
    let d = match wal {
        Some(wal) => wal_given(m, wal),
        None => Ok(m),
    };
    match d {
        Err(f) => Err(f),
        Ok(d) => match transactions {
            Some(transactions) => transactions_given(d, transactions),
            None => Ok(d),
        },
    }
}

/// A configuration with the rules for access and logging that are written down.
pub open spec fn watching_given(
    m: ConfigModel,
    security: Option<RawSecurityConfig>,
    logging: Option<RawLoggingConfig>,
) -> Result<ConfigModel, Failure> {
    let g = match security {
        Some(security) => security_given(m, security),
        None => Ok(m),
    };
    match g {
        Err(f) => Err(f),
        Ok(g) => match logging {
            Some(logging) => logging_given(g, logging),
            None => Ok(g),
        },
    }
}

/// The configuration once the sections were taken over, one after another.
pub open spec fn sections_given(raw: RawWardrobeConfig) -> Result<ConfigModel, Failure> {
    match writing_given(
        places_given(default_config(), raw.data, raw.network, raw.cache),
        raw.wal,
        raw.transactions,
    ) {
        Err(f) => Err(f),
        Ok(m) => watching_given(m, raw.security, raw.logging),
    }
}

/// The configuration that is written down, or why it is refused.
pub open spec fn resolved_config(raw: RawWardrobeConfig) -> Result<ConfigModel, Failure> {
    match sections_given(raw) {
        Err(f) => Err(f),
        Ok(m) => match config_refusal(m) {
            Some(f) => Err(f),
            None => Ok(m),
        },
    }
}

impl WardrobeConfig {
    fn take_data(&mut self, raw: RawDataConfig)
        ensures
            final(self)@ == data_given(old(self)@, raw),
    {
        match raw.directory {
            Some(directory) => {
                self.data.directory = directory;
            },
            None => {},
        }
    }

    fn take_network(&mut self, raw: RawNetworkConfig)
        ensures
            final(self)@ == network_given(old(self)@, raw),
    {
        match raw.tcp_enabled {
            Some(enabled) => {
                self.network.tcp_enabled = enabled;
            },
            None => {},
        }
        match raw.tcp_bind {
            Some(bind) => {
                self.network.tcp_bind = bind;
            },
            None => {},
        }
        match raw.unix_socket_enabled {
            Some(enabled) => {
                self.network.unix_socket_enabled = enabled;
            },
            None => {},
        }
        match raw.unix_socket {
            Some(path) => {
                self.network.unix_socket = path;
            },
            None => {},
        }
    }

    fn take_wal(&mut self, raw: RawWalConfig) -> (r: Result<(), Error>)
        ensures
            match (wal_given(old(self)@, raw), r) {
                (Ok(m), Ok(())) => final(self)@ == m,
                (Err(f), Err(e)) => e@ == f,
                _ => false,
            },
    {
        let window: u64 = match raw.group_commit_window_ms {
            Some(window) => window,
            None => DEFAULT_GROUP_COMMIT_WINDOW_MS,
        };
        let batch: usize = match raw.group_commit_max_batch {
            Some(batch) => batch,
            None => DEFAULT_GROUP_COMMIT_MAX_BATCH,
        };
        match raw.durability {
            Some(name) => {
                match parse_durability_policy(name.as_str(), window, batch) {
                    Ok(policy) => {
                        self.wal.durability = policy;
                    },
                    Err(e) => {
                        return Err(e);
                    },
                }
            },
            None => {},
        }
        match raw.checkpoint_size_bytes {
            Some(bytes) => {
                self.wal.checkpoint_size_bytes = bytes;
            },
            None => {},
        }
        match raw.checkpoint_ops {
            Some(ops) => {
                self.wal.checkpoint_ops = ops;
            },
            None => {},
        }
        Ok(())
    }

    fn take_transactions(&mut self, raw: RawTransactionConfig) -> (r: Result<(), Error>)
        ensures
            match (transactions_given(old(self)@, raw), r) {
                (Ok(m), Ok(())) => final(self)@ == m,
                (Err(f), Err(e)) => e@ == f,
                _ => false,
            },
    {
        match raw.enabled {
            Some(enabled) => {
                self.transactions.enabled = enabled;
            },
            None => {},
        }
        match raw.log_directory {
            Some(directory) => {
                self.transactions.log_directory = directory;
            },
            None => {},
        }
        match raw.recovery {
            Some(name) => {
                match TransactionRecoveryMode::parse(name.as_str()) {
                    Ok(mode) => {
                        self.transactions.recovery = mode;
                    },
                    Err(e) => {
                        return Err(e);
                    },
                }
            },
            None => {},
        }
        Ok(())
    }

    fn take_security(&mut self, raw: RawSecurityConfig) -> (r: Result<(), Error>)
        ensures
            match (security_given(old(self)@, raw), r) {
                (Ok(m), Ok(())) => final(self)@ == m,
                (Err(f), Err(e)) => e@ == f,
                _ => false,
            },
    {
        match raw.transport.resolve() {
            Ok(transport) => {
                self.security.transport = transport;
            },
            Err(e) => {
                return Err(e);
            },
        }
        match raw.access_control_file {
            Some(file) => {
                self.security.access_control_file = file;
            },
            None => {},
        }
        match raw.auth_required {
            Some(required) => {
                self.security.auth_required = required;
            },
            None => {},
        }
        Ok(())
    }

    fn take_logging(&mut self, raw: RawLoggingConfig) -> (r: Result<(), Error>)
        ensures
            match (logging_given(old(self)@, raw), r) {
                (Ok(m), Ok(())) => final(self)@ == m,
                (Err(f), Err(e)) => e@ == f,
                _ => false,
            },
    {
        let level = text_of(&raw.level);
        let format = text_of(&raw.format);
        let destination = text_of(&raw.destination);
        match ApplicationLoggingConfig::from_parts(level, format, destination, raw.file) {
            Ok(logging) => {
                self.logging = logging;
                Ok(())
            },
            Err(e) => Err(e),
        }
    }
}

impl WardrobeConfig {
    fn take_places(
        &mut self,
        data: Option<RawDataConfig>,
        network: Option<RawNetworkConfig>,
        cache: Option<RawCacheConfig>,
    )
        ensures
            final(self)@ == places_given(old(self)@, data, network, cache),
    {
        match data {
            Some(data) => {
                self.take_data(data);
            },
            None => {},
        }
        match network {
            Some(network) => {
                self.take_network(network);
            },
            None => {},
        }
        match cache {
            Some(cache) => {
                self.cache.max_cached_drawers = cache.max_cached_drawers;
            },
            None => {},
        }
    }

    fn take_writing(
        &mut self,
        wal: Option<RawWalConfig>,
        transactions: Option<RawTransactionConfig>,
    ) -> (r: Result<(), Error>)
        ensures
            match (writing_given(old(self)@, wal, transactions), r) {
                (Ok(m), Ok(())) => final(self)@ == m,
                (Err(f), Err(e)) => e@ == f,
                _ => false,
            },
    {
        match wal {
            Some(wal) => {
                match self.take_wal(wal) {
                    Ok(()) => {},
                    Err(e) => {
                        return Err(e);
                    },
                }
            },
            None => {},
        }
        match transactions {
            Some(transactions) => self.take_transactions(transactions),
            None => Ok(()),
        }
    }

    fn take_watching(
        &mut self,
        security: Option<RawSecurityConfig>,
        logging: Option<RawLoggingConfig>,
    ) -> (r: Result<(), Error>)
        ensures
            match (watching_given(old(self)@, security, logging), r) {
                (Ok(m), Ok(())) => final(self)@ == m,
                (Err(f), Err(e)) => e@ == f,
                _ => false,
            },
    {
        match security {
            Some(security) => match self.take_security(security) {
                Ok(()) => {},
                Err(e) => {
                    return Err(e);
                },
            },
            None => {},
        }
        match logging {
            Some(logging) => self.take_logging(logging),
            None => Ok(()),
        }
    }
}

fn text_of(s: &Option<String>) -> (r: Option<&str>)
    ensures
        opt_str(r) == opt_text(*s),
{
    match s {
        Some(t) => Some(t.as_str()),
        None => None,
    }
}

impl RawWardrobeConfig {
    /// The configuration that is written down, with the defaults for what is left out.
    pub fn resolve(self) -> (r: Result<WardrobeConfig, Error>)
        ensures
            match (resolved_config(self), r) {
                (Ok(m), Ok(config)) => config@ == m,
                (Err(f), Err(e)) => e@ == f,
                _ => false,
            },
    {
        let mut config = WardrobeConfig::default();
        config.take_places(self.data, self.network, self.cache);
        match config.take_writing(self.wal, self.transactions) {
            Ok(()) => {},
            Err(e) => {
                return Err(e);
            },
        }
        match config.take_watching(self.security, self.logging) {
            Ok(()) => {},
            Err(e) => {
                return Err(e);
            },
        }
        match config.validate() {
            Ok(()) => Ok(config),
            Err(e) => Err(e),
        }
    }
}

/// A configuration that was written down and accepted is valid.
pub proof fn law_resolved_config_is_valid(raw: RawWardrobeConfig)
    ensures
        resolved_config(raw) matches Ok(m) ==> config_refusal(m) is None,
{
}

/// A server that needs no certificates takes connections from this machine alone, unless its
/// configuration allows others in so many words.
pub proof fn law_disabled_mode_stays_local(m: ConfigModel)
    requires
        server_refusal(m) is None,
        m.transport.mode == Some(SecurityMode::Disabled),
        !m.transport.unsafe_allow_remote_disabled,
    ensures
        m.tcp_enabled ==> is_loopback(m.tcp_bind),
{
}

/// Nothing written down is the configuration in which nothing is set, and a server takes it.
pub proof fn law_default_config_is_valid()
    ensures
        server_refusal(default_config()) is None,
{
    reveal_strlit("./wardrobe");
    reveal_strlit("./wardrobe/.transactions");
    reveal_strlit("_wardrobe_access_control.json");
    reveal_strlit("127.0.0.1:");
    let bind = "127.0.0.1:"@ + decimal(DEFAULT_NETWORK_PORT as nat);
    assert(bind[0] == '1');
    assert(!crate::text::is_space('1'));
    assert(crate::text::first_solid(bind, 0) == 0);
    crate::text::laws::lemma_solid_end(bind, 0, bind.len() as int);
}

/// The JSON value of a number that may be missing.
pub open spec fn opt_size_json(n: Option<usize>) -> Json {
    match n {
        Some(n) => Json::Number(Number::PosInt(n as u64)),
        None => Json::Null,
    }
}

/// The JSON value of a text that may be missing.
pub open spec fn opt_text_json(s: Option<Seq<char>>) -> Json {
    match s {
        Some(s) => Json::Text(s),
        None => Json::Null,
    }
}

pub open spec fn network_summary(m: ConfigModel) -> Json {
    Json::Object(
        Map::empty().insert("tcp_enabled"@, Json::Bool(m.tcp_enabled)).insert(
            "tcp_bind"@,
            Json::Text(m.tcp_bind),
        ).insert("unix_socket_enabled"@, Json::Bool(m.unix_socket_enabled)).insert(
            "unix_socket"@,
            Json::Text(m.unix_socket),
        ),
    )
}

pub open spec fn wal_summary(m: ConfigModel) -> Json {
    Json::Object(
        Map::empty().insert("durability"@, Json::Text(policy_name(m.durability))).insert(
            "checkpoint_size_bytes"@,
            Json::Number(Number::PosInt(m.checkpoint_size_bytes)),
        ).insert("checkpoint_ops"@, Json::Number(Number::PosInt(m.checkpoint_ops))),
    )
}

pub open spec fn transactions_summary(m: ConfigModel) -> Json {
    Json::Object(
        Map::empty().insert("enabled"@, Json::Bool(m.transactions_enabled)).insert(
            "log_directory"@,
            Json::Text(m.log_directory),
        ).insert("recovery"@, Json::Text(m.recovery.name())),
    )
}

pub open spec fn security_summary(m: ConfigModel) -> Json {
    Json::Object(
        Map::empty().insert("access_control_file"@, Json::Text(m.access_control_file)).insert(
            "auth_required"@,
            Json::Bool(m.auth_required),
        ),
    )
}

pub open spec fn logging_summary(m: LoggingModel) -> Json {
    Json::Object(
        Map::empty().insert("level"@, Json::Text(m.level.name())).insert(
            "format"@,
            Json::Text(m.format.name()),
        ).insert("destination"@, Json::Text(m.destination.name())).insert(
            "file"@,
            opt_text_json(m.file),
        ),
    )
}

/// A configuration as it is shown.
pub open spec fn config_summary(m: ConfigModel) -> Json {
    Json::Object(
        Map::empty().insert(
            "data"@,
            Json::Object(Map::empty().insert("directory"@, Json::Text(m.directory))),
        ).insert("network"@, network_summary(m)).insert(
            "cache"@,
            Json::Object(
                Map::empty().insert("max_cached_drawers"@, opt_size_json(m.max_cached_drawers)),
            ),
        ).insert("wal"@, wal_summary(m)).insert("transactions"@, transactions_summary(m)).insert(
            "security"@,
            security_summary(m),
        ).insert("logging"@, logging_summary(m.logging)),
    )
}

fn new_fields() -> (r: TextMap<JsonValue>)
    ensures
        json_fields(r) == Map::<Seq<char>, Json>::empty(),
{
    let fields: TextMap<JsonValue> = TextMap::new();
    assert(json_fields(fields) =~= Map::<Seq<char>, Json>::empty());
    fields
}

fn put(fields: &mut TextMap<JsonValue>, key: &str, value: JsonValue)
    ensures
        json_fields(*final(fields)) == json_fields(*old(fields)).insert(key@, value@),
{
    broadcast use group_value;

    fields.insert(owned(key), value);
}

impl WardrobeConfig {
    fn network_summary(&self) -> (r: JsonValue)
        ensures
            r@ == network_summary(self@),
    {
        let mut fields = new_fields();
        put(&mut fields, "tcp_enabled", JsonValue::Bool(self.network.tcp_enabled));
        put(&mut fields, "tcp_bind", JsonValue::text(self.network.tcp_bind.as_str()));
        put(
            &mut fields,
            "unix_socket_enabled",
            JsonValue::Bool(self.network.unix_socket_enabled),
        );
        put(&mut fields, "unix_socket", JsonValue::text(self.network.unix_socket.as_str()));
        JsonValue::object(fields)
    }

    fn wal_summary(&self) -> (r: JsonValue)
        ensures
            r@ == wal_summary(self@),
    {
        let mut fields = new_fields();
        put(&mut fields, "durability", JsonValue::text(durability_policy_name(&self.wal.durability)));
        put(
            &mut fields,
            "checkpoint_size_bytes",
            JsonValue::unsigned(self.wal.checkpoint_size_bytes),
        );
        put(&mut fields, "checkpoint_ops", JsonValue::unsigned(self.wal.checkpoint_ops));
        JsonValue::object(fields)
    }

    fn transactions_summary(&self) -> (r: JsonValue)
        ensures
            r@ == transactions_summary(self@),
    {
        let mut fields = new_fields();
        put(&mut fields, "enabled", JsonValue::Bool(self.transactions.enabled));
        put(
            &mut fields,
            "log_directory",
            JsonValue::text(self.transactions.log_directory.as_str()),
        );
        put(&mut fields, "recovery", JsonValue::text(self.transactions.recovery.as_str()));
        JsonValue::object(fields)
    }

    fn security_summary(&self) -> (r: JsonValue)
        ensures
            r@ == security_summary(self@),
    {
        let mut fields = new_fields();
        put(
            &mut fields,
            "access_control_file",
            JsonValue::text(self.security.access_control_file.as_str()),
        );
        put(&mut fields, "auth_required", JsonValue::Bool(self.security.auth_required));
        JsonValue::object(fields)
    }

    fn logging_summary(&self) -> (r: JsonValue)
        ensures
            r@ == logging_summary(self.logging@),
    {
        let file = match &self.logging.file {
            Some(path) => JsonValue::text(path.as_str()),
            None => JsonValue::Null,
        };
        let mut fields = new_fields();
        put(&mut fields, "level", JsonValue::text(self.logging.level.as_str()));
        put(&mut fields, "format", JsonValue::text(self.logging.format.as_str()));
        put(&mut fields, "destination", JsonValue::text(self.logging.destination.as_str()));
        put(&mut fields, "file", file);
        JsonValue::object(fields)
    }

    /// The configuration as it is shown. It holds no secrets.
    pub fn redacted_summary(&self) -> (r: JsonValue)
        ensures
            r@ == config_summary(self@),
    {
        let mut data = new_fields();
        put(&mut data, "directory", JsonValue::text(self.data.directory.as_str()));
        let limit = match self.cache.max_cached_drawers {
            Some(n) => JsonValue::unsigned(n as u64),
            None => JsonValue::Null,
        };
        let mut cache = new_fields();
        put(&mut cache, "max_cached_drawers", limit);
        let mut fields = new_fields();
        put(&mut fields, "data", JsonValue::object(data));
        put(&mut fields, "network", self.network_summary());
        put(&mut fields, "cache", JsonValue::object(cache));
        put(&mut fields, "wal", self.wal_summary());
        put(&mut fields, "transactions", self.transactions_summary());
        put(&mut fields, "security", self.security_summary());
        put(&mut fields, "logging", self.logging_summary());
        JsonValue::object(fields)
    }
}

} // verus!
