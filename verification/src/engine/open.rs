//! How an engine is opened.
use crate::catalog::registry::CatalogRegistry;
use crate::config::{
    config_refusal, default_config, ConfigModel, WardrobeConfig,
};
use crate::database::{
    limits_refusal, opened, DEFAULT_WAL_OPS_THRESHOLD, DEFAULT_WAL_SIZE_THRESHOLD, Database,
};
use crate::error::Error;
use crate::text::owned;
use crate::wal::DurabilityPolicy;
use vstd::prelude::*;

verus! {

/// An engine: its root directory, the catalog, the database at the root, and whether it was opened
/// for a server, which then holds the lock of the directory.
pub struct WardrobeEngine<D> {
    pub root_directory: String,
    pub registry: CatalogRegistry,
    pub database_core: Database<D>,
    pub for_server: bool,
}

/// How an engine is opened: where, and within what limits.
pub struct EngineModel {
    pub directory: Seq<char>,
    pub limit: Option<usize>,
    pub size_threshold: u64,
    pub ops_threshold: u64,
    pub policy: DurabilityPolicy,
    pub for_server: bool,
}

/// Whether an engine was opened like this, with the catalog.
pub open spec fn engine_opened<D>(
    r: Result<WardrobeEngine<D>, Error>,
    m: EngineModel,
    registry: CatalogRegistry,
) -> bool {
    match (limits_refusal(m.limit, m.size_threshold, m.ops_threshold), r) {
        (None, Ok(engine)) => engine.root_directory@ == m.directory && engine.registry == registry
            && engine.for_server == m.for_server && engine.database_core@ == opened::<D>(
            m.directory,
            m.limit,
            m.size_threshold,
            m.ops_threshold,
            m.policy,
        ),
        (Some(f), Err(e)) => e@ == f,
        _ => false,
    }
}

/// The limits where none are given.
pub open spec fn plain_engine(directory: Seq<char>) -> EngineModel {
    EngineModel {
        directory,
        limit: None,
        size_threshold: DEFAULT_WAL_SIZE_THRESHOLD,
        ops_threshold: DEFAULT_WAL_OPS_THRESHOLD,
        policy: DurabilityPolicy::Strict,
        for_server: false,
    }
}

/// The limits that a configuration gives.
pub open spec fn configured_engine(m: ConfigModel, for_server: bool) -> EngineModel {
    EngineModel {
        directory: m.directory,
        limit: m.max_cached_drawers,
        size_threshold: m.checkpoint_size_bytes,
        ops_threshold: m.checkpoint_ops,
        policy: m.durability,
        for_server,
    }
}

/// Whether an engine was opened by a configuration: only a valid one opens an engine.
pub open spec fn config_opened<D>(
    r: Result<WardrobeEngine<D>, Error>,
    m: ConfigModel,
    registry: CatalogRegistry,
    for_server: bool,
) -> bool {
    match config_refusal(m) {
        Some(f) => r matches Err(e) && e@ == f,
        None => engine_opened(r, configured_engine(m, for_server), registry),
    }
}

impl<D> WardrobeEngine<D> {
    fn open_with_optional_limits_and_durability_and_lock(
        directory: &str,
        registry: CatalogRegistry,
        max_cached_drawers: Option<usize>,
        wal_thresholds: Option<(u64, u64)>,
        durability_policy: DurabilityPolicy,
        for_server: bool,
    ) -> (r: Result<Self, Error>)
        ensures
            engine_opened(
                r,
                EngineModel {
                    directory: directory@,
                    limit: max_cached_drawers,
                    size_threshold: match wal_thresholds {
                        Some(t) => t.0,
                        None => DEFAULT_WAL_SIZE_THRESHOLD,
                    },
                    ops_threshold: match wal_thresholds {
                        Some(t) => t.1,
                        None => DEFAULT_WAL_OPS_THRESHOLD,
                    },
                    policy: durability_policy,
                    for_server,
                },
                registry,
            ),
    {
        let (size, ops) = match wal_thresholds {
            Some(thresholds) => thresholds,
            None => Database::<D>::default_wal_thresholds(),
        };
        match Database::initialize_with_cache_limit_wal_thresholds_and_durability(
            directory,
            max_cached_drawers,
            size,
            ops,
            durability_policy,
        ) {
            Ok(database_core) => Ok(
                WardrobeEngine {
                    root_directory: owned(directory),
                    registry,
                    database_core,
                    for_server,
                },
            ),
            Err(e) => Err(e),
        }
    }

    pub fn builder() -> (r: WardrobeEngineBuilder)
        ensures
            r.config@ == default_config(),
    {
        WardrobeEngineBuilder::default()
    }

    pub fn open(directory: &str, registry: CatalogRegistry) -> (r: Result<Self, Error>)
        ensures
            engine_opened(r, plain_engine(directory@), registry),
    {
        Self::open_with_optional_limits_and_durability_and_lock(
            directory,
            registry,
            None,
            None,
            DurabilityPolicy::Strict,
            false,
        )
    }

    pub fn open_with_config(config: WardrobeConfig, registry: CatalogRegistry) -> (r: Result<
        Self,
        Error,
    >)
        ensures
            config_opened(r, config@, registry, false),
    {
        match config.validate() {
            Ok(()) => {},
            Err(e) => {
                return Err(e);
            },
        }
        Self::open_with_optional_limits_and_durability_and_lock(
            config.data.directory.as_str(),
            registry,
            config.cache.max_cached_drawers,
            Some((config.wal.checkpoint_size_bytes, config.wal.checkpoint_ops)),
            config.wal.durability,
            false,
        )
    }

    pub fn open_with_drawer_cache_limit(
        directory: &str,
        registry: CatalogRegistry,
        max_cached_drawers: usize,
    ) -> (r: Result<Self, Error>)
        ensures
            engine_opened(
                r,
                (EngineModel { limit: Some(max_cached_drawers), ..plain_engine(directory@) }),
                registry,
            ),
    {
        Self::open_with_optional_limits_and_durability_and_lock(
            directory,
            registry,
            Some(max_cached_drawers),
            None,
            DurabilityPolicy::Strict,
            false,
        )
    }

    pub fn open_with_wal_checkpoint_thresholds(
        directory: &str,
        registry: CatalogRegistry,
        wal_size_threshold_bytes: u64,
        wal_ops_threshold_count: u64,
    ) -> (r: Result<Self, Error>)
        ensures
            engine_opened(
                r,
                (EngineModel {
                    size_threshold: wal_size_threshold_bytes,
                    ops_threshold: wal_ops_threshold_count,
                    ..plain_engine(directory@)
                }),
                registry,
            ),
    {
        Self::open_with_optional_limits_and_durability_and_lock(
            directory,
            registry,
            None,
            Some((wal_size_threshold_bytes, wal_ops_threshold_count)),
            DurabilityPolicy::Strict,
            false,
        )
    }

    pub fn open_with_drawer_cache_limit_and_wal_checkpoint_thresholds(
        directory: &str,
        registry: CatalogRegistry,
        max_cached_drawers: usize,
        wal_size_threshold_bytes: u64,
        wal_ops_threshold_count: u64,
    ) -> (r: Result<Self, Error>)
        ensures
            engine_opened(
                r,
                (EngineModel {
                    limit: Some(max_cached_drawers),
                    size_threshold: wal_size_threshold_bytes,
                    ops_threshold: wal_ops_threshold_count,
                    ..plain_engine(directory@)
                }),
                registry,
            ),
    {
        Self::open_with_optional_limits_and_durability_and_lock(
            directory,
            registry,
            Some(max_cached_drawers),
            Some((wal_size_threshold_bytes, wal_ops_threshold_count)),
            DurabilityPolicy::Strict,
            false,
        )
    }

    pub fn open_with_durability_policy(
        directory: &str,
        registry: CatalogRegistry,
        durability_policy: DurabilityPolicy,
    ) -> (r: Result<Self, Error>)
        ensures
            engine_opened(
                r,
                (EngineModel { policy: durability_policy, ..plain_engine(directory@) }),
                registry,
            ),
    {
        Self::open_with_optional_limits_and_durability_and_lock(
            directory,
            registry,
            None,
            None,
            durability_policy,
            false,
        )
    }

    pub fn open_for_server(directory: &str, registry: CatalogRegistry) -> (r: Result<Self, Error>)
        ensures
            engine_opened(
                r,
                (EngineModel { for_server: true, ..plain_engine(directory@) }),
                registry,
            ),
    {
        Self::open_for_server_with_durability_policy(directory, registry, DurabilityPolicy::Strict)
    }

    pub fn open_for_server_with_durability_policy(
        directory: &str,
        registry: CatalogRegistry,
        durability_policy: DurabilityPolicy,
    ) -> (r: Result<Self, Error>)
        ensures
            engine_opened(
                r,
                (EngineModel {
                    policy: durability_policy,
                    for_server: true,
                    ..plain_engine(directory@)
                }),
                registry,
            ),
    {
        Self::open_with_optional_limits_and_durability_and_lock(
            directory,
            registry,
            None,
            None,
            durability_policy,
            true,
        )
    }

    pub fn open_for_server_with_config(config: WardrobeConfig, registry: CatalogRegistry) -> (r:
        Result<Self, Error>)
        ensures
            config_opened(r, config@, registry, true),
    {
        match config.validate() {
            Ok(()) => {},
            Err(e) => {
                return Err(e);
            },
        }
        Self::open_with_optional_limits_and_durability_and_lock(
            config.data.directory.as_str(),
            registry,
            config.cache.max_cached_drawers,
            Some((config.wal.checkpoint_size_bytes, config.wal.checkpoint_ops)),
            config.wal.durability,
            true,
        )
    }

    pub fn configured_max_cached_drawers(&self) -> (r: Option<usize>)
        ensures
            r == self.database_core@.limit,
    {
        self.database_core.max_cached_drawers()
    }

    pub fn configured_wal_thresholds(&self) -> (r: (u64, u64))
        ensures
            r == (self.database_core@.size_threshold, self.database_core@.ops_threshold),
    {
        self.database_core.wal_thresholds()
    }

    pub fn configured_durability_policy(&self) -> (r: DurabilityPolicy)
        ensures
            r == self.database_core@.policy,
    {
        self.database_core.durability_policy()
    }
}

/// A configuration that is put together, to open an engine with.
#[derive(Debug)]
pub struct WardrobeEngineBuilder {
    pub config: WardrobeConfig,
}

impl Default for WardrobeEngineBuilder {
    fn default() -> (r: Self)
        ensures
            r.config@ == default_config(),
    {
        WardrobeEngineBuilder { config: WardrobeConfig::default() }
    }
}

impl WardrobeEngineBuilder {
    pub fn config(self, config: WardrobeConfig) -> (r: Self)
        ensures
            r.config == config,
    {
        WardrobeEngineBuilder { config }
    }

    pub fn directory(self, directory: &str) -> (r: Self)
        ensures
            r.config@ == (ConfigModel { directory: directory@, ..self.config@ }),
    {
        let mut config = self.config;
        config.data.directory = owned(directory);
        WardrobeEngineBuilder { config }
    }

    pub fn max_cached_drawers(self, max_cached_drawers: usize) -> (r: Self)
        ensures
            r.config@ == (ConfigModel {
                max_cached_drawers: Some(max_cached_drawers),
                ..self.config@
            }),
    {
        let mut config = self.config;
        config.cache.max_cached_drawers = Some(max_cached_drawers);
        WardrobeEngineBuilder { config }
    }

    pub fn durability(self, durability_policy: DurabilityPolicy) -> (r: Self)
        ensures
            r.config@ == (ConfigModel { durability: durability_policy, ..self.config@ }),
    {
        let mut config = self.config;
        config.wal.durability = durability_policy;
        WardrobeEngineBuilder { config }
    }

    pub fn wal_checkpoint_thresholds(self, checkpoint_size_bytes: u64, checkpoint_ops: u64) -> (r:
        Self)
        ensures
            r.config@ == (ConfigModel { checkpoint_size_bytes, checkpoint_ops, ..self.config@ }),
    {
        let mut config = self.config;
        config.wal.checkpoint_size_bytes = checkpoint_size_bytes;
        config.wal.checkpoint_ops = checkpoint_ops;
        WardrobeEngineBuilder { config }
    }

    pub fn open<D>(self, registry: CatalogRegistry) -> (r: Result<WardrobeEngine<D>, Error>)
        ensures
            config_opened(r, self.config@, registry, false),
    {
        WardrobeEngine::open_with_config(self.config, registry)
    }
}

/// A configuration that opens an engine opens one for a server too, and a valid configuration
/// always opens one.
pub proof fn law_valid_config_opens(m: ConfigModel)
    requires
        config_refusal(m) is None,
    ensures
        limits_refusal(m.max_cached_drawers, m.checkpoint_size_bytes, m.checkpoint_ops) is None,
{
}

} // verus!
