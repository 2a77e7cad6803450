//! What an engine that was opened is like.
use crate::catalog::registry::CatalogRegistry;
use crate::config::{config_refusal, ConfigModel};
use crate::database::{DEFAULT_WAL_OPS_THRESHOLD, DEFAULT_WAL_SIZE_THRESHOLD};
use crate::engine::open::{
    config_opened, engine_opened, plain_engine, EngineModel, WardrobeEngine,
};
use crate::error::{Error, ErrorKind};
use vstd::prelude::*;

verus! {

/// An engine that was opened stands where and within the limits that were asked for, with the
/// catalog that was given, and with no drawer open and nothing logged yet. Only a limit of zero
/// keeps it from being opened.
pub proof fn law_engine_opens_as_asked<D>(
    r: Result<WardrobeEngine<D>, Error>,
    m: EngineModel,
    registry: CatalogRegistry,
)
    requires
        engine_opened(r, m, registry),
    ensures
        r is Ok <==> m.limit != Some(0usize) && m.size_threshold > 0 && m.ops_threshold > 0,
        r matches Err(e) ==> e@.kind == ErrorKind::InvalidInput,
        r matches Ok(engine) ==> {
            &&& engine.root_directory@ == m.directory
            &&& engine.registry == registry
            &&& engine.for_server == m.for_server
            &&& engine.database_core@.directory == m.directory
            &&& engine.database_core@.limit == m.limit
            &&& engine.database_core@.size_threshold == m.size_threshold
            &&& engine.database_core@.ops_threshold == m.ops_threshold
            &&& engine.database_core@.policy == m.policy
            &&& forall|name: Seq<char>| !engine.database_core@.drawers.dom().contains(name)
            &&& engine.database_core@.wal_bytes == 0
            &&& engine.database_core@.wal_ops == 0
            &&& forall|name: Seq<char>| !engine.database_core@.mutated.contains(name)
        },
{
}

/// An engine without limits of its own has the usual ones, and writes every change through.
pub proof fn law_plain_engine_has_the_usual_limits(directory: Seq<char>)
    ensures
        plain_engine(directory).directory == directory,
        plain_engine(directory).limit is None,
        plain_engine(directory).size_threshold == DEFAULT_WAL_SIZE_THRESHOLD,
        plain_engine(directory).ops_threshold == DEFAULT_WAL_OPS_THRESHOLD,
        plain_engine(directory).policy is Strict,
        !plain_engine(directory).for_server,
{
}

/// A valid configuration opens an engine where and within the limits that it gives; any other is
/// refused.
pub proof fn law_configured_engine_is_as_configured<D>(
    r: Result<WardrobeEngine<D>, Error>,
    m: ConfigModel,
    registry: CatalogRegistry,
    for_server: bool,
)
    requires
        config_opened(r, m, registry, for_server),
    ensures
        r is Ok <==> config_refusal(m) is None,
        r matches Ok(engine) ==> {
            &&& engine.root_directory@ == m.directory
            &&& engine.registry == registry
            &&& engine.for_server == for_server
            &&& engine.database_core@.directory == m.directory
            &&& engine.database_core@.limit == m.max_cached_drawers
            &&& engine.database_core@.size_threshold == m.checkpoint_size_bytes
            &&& engine.database_core@.ops_threshold == m.checkpoint_ops
            &&& engine.database_core@.policy == m.durability
        },
{
}

} // verus!
