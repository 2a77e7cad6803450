//! A database: the drawers that are kept open, and what was logged since the last checkpoint.
use crate::catalog::folder::Folder;
use crate::catalog::restored::{drawer_names, restored_drawer_names};
use crate::error::{bad_input, Error, Failure};
use crate::fields::{key_order, lists, TextMap};
use crate::paths::{join_path, path_joined};
use crate::text::{concat2, holds, opt_str, owned, same, texts};
use crate::wal::DurabilityPolicy;
use vstd::prelude::*;

verus! {

pub const DEFAULT_WAL_SIZE_THRESHOLD: u64 = 1_048_576;

pub const DEFAULT_WAL_OPS_THRESHOLD: u64 = 1000;

/// A drawer that is kept open, and when it was used last.
pub struct CachedDrawer<D> {
    pub drawer: D,
    pub last_access_tick: u64,
}

/// A database. Its clock counts how often drawers were used.
pub struct Database<D> {
    storage_directory: String,
    active_drawers: TextMap<CachedDrawer<D>>,
    max_cached_drawers: Option<usize>,
    access_clock: u64,
    wal_bytes_since_checkpoint: u64,
    wal_ops_since_checkpoint: u64,
    wal_size_threshold_bytes: u64,
    wal_ops_threshold_count: u64,
    durability_policy: DurabilityPolicy,
    mutated_drawers: TextMap<()>,
}

/// The model of a database.
#[verifier::ext_equal]
pub struct DatabaseModel<D> {
    pub directory: Seq<char>,
    pub drawers: Map<Seq<char>, CachedDrawer<D>>,
    pub limit: Option<usize>,
    pub clock: int,
    pub wal_bytes: int,
    pub wal_ops: int,
    pub size_threshold: u64,
    pub ops_threshold: u64,
    pub policy: DurabilityPolicy,
    pub mutated: Set<Seq<char>>,
}

/// Whether no two drawers were used last at the same time, and none later than now.
pub open spec fn ticks_differ<D>(drawers: Map<Seq<char>, CachedDrawer<D>>, clock: int) -> bool {
    &&& forall|a: Seq<char>| #[trigger]
        drawers.dom().contains(a) ==> drawers[a].last_access_tick <= clock
    &&& forall|a: Seq<char>, b: Seq<char>|
        #![trigger drawers.dom().contains(a), drawers.dom().contains(b)]
        drawers.dom().contains(a) && drawers.dom().contains(b) && a != b
            ==> drawers[a].last_access_tick != drawers[b].last_access_tick
}

impl<D> View for Database<D> {
    type V = DatabaseModel<D>;

    closed spec fn view(&self) -> DatabaseModel<D> {
        DatabaseModel {
            directory: self.storage_directory@,
            drawers: self.active_drawers@,
            limit: self.max_cached_drawers,
            clock: self.access_clock as int,
            wal_bytes: self.wal_bytes_since_checkpoint as int,
            wal_ops: self.wal_ops_since_checkpoint as int,
            size_threshold: self.wal_size_threshold_bytes,
            ops_threshold: self.wal_ops_threshold_count,
            policy: self.durability_policy,
            mutated: self.mutated_drawers@.dom(),
        }
    }
}

/// Why a database cannot be opened with these limits.
pub open spec fn limits_refusal(limit: Option<usize>, size: u64, ops: u64) -> Option<Failure> {
    if limit == Some(0usize) {
        Some(bad_input("Drawer cache limit must be greater than zero"@))
    } else if size == 0 {
        Some(bad_input("WAL size checkpoint threshold must be greater than zero"@))
    } else if ops == 0 {
        Some(bad_input("WAL operation checkpoint threshold must be greater than zero"@))
    } else {
        None
    }
}

/// A database that was just opened.
pub open spec fn opened<D>(
    directory: Seq<char>,
    limit: Option<usize>,
    size: u64,
    ops: u64,
    policy: DurabilityPolicy,
) -> DatabaseModel<D> {
    DatabaseModel {
        directory,
        drawers: Map::empty(),
        limit,
        clock: 0,
        wal_bytes: 0,
        wal_ops: 0,
        size_threshold: size,
        ops_threshold: ops,
        policy,
        mutated: Set::empty(),
    }
}

/// Whether this is the database that was opened, or the failure.
pub open spec fn is_opened<D>(
    r: Result<Database<D>, Error>,
    directory: Seq<char>,
    limit: Option<usize>,
    size: u64,
    ops: u64,
    policy: DurabilityPolicy,
) -> bool {
    match (limits_refusal(limit, size, ops), r) {
        (None, Ok(database)) => database@ == opened::<D>(directory, limit, size, ops, policy),
        (Some(f), Err(e)) => e@ == f,
        _ => false,
    }
}

/// Whether a drawer may be closed: it is not the one to keep, and nobody else uses it.
pub open spec fn may_close(name: Seq<char>, keep: Option<Seq<char>>, busy: Set<Seq<char>>) -> bool {
    keep != Some(name) && !busy.contains(name)
}

/// Whether these are the drawers that are left once so many were closed that no more are open than
/// allowed: of those that may be closed, the ones go that were not used for the longest time.
pub open spec fn closed_down<D>(
    before: Map<Seq<char>, CachedDrawer<D>>,
    after: Map<Seq<char>, CachedDrawer<D>>,
    limit: Option<usize>,
    keep: Option<Seq<char>>,
    busy: Set<Seq<char>>,
) -> bool {
    &&& after.dom().subset_of(before.dom())
    &&& forall|a: Seq<char>| #[trigger] after.dom().contains(a) ==> after[a] == before[a]
    &&& forall|a: Seq<char>| #[trigger]
        before.dom().contains(a) && !after.dom().contains(a) ==> may_close(a, keep, busy)
    &&& forall|a: Seq<char>, b: Seq<char>|
        #![trigger before.dom().contains(a), after.dom().contains(b)]
        before.dom().contains(a) && !after.dom().contains(a) && after.dom().contains(b)
            && may_close(b, keep, busy) ==> before[a].last_access_tick
            < before[b].last_access_tick
    &&& match limit {
        None => after == before,
        Some(n) => {
            &&& before.dom().len() <= n ==> after == before
            &&& before.dom().len() > n ==> after.dom().len() >= n
            &&& after.dom().len() <= n || forall|b: Seq<char>| #[trigger]
                after.dom().contains(b) ==> !may_close(b, keep, busy)
        },
    }
}

proof fn lemma_key_count(keys: Seq<Seq<char>>, dom: Set<Seq<char>>)
    requires
        lists(keys, dom),
        dom.finite(),
    ensures
        dom.len() == keys.len(),
{
    assert(keys.no_duplicates()) by {
        assert forall|i: int, j: int| 0 <= i < keys.len() && 0 <= j < keys.len() && i != j implies keys[i]
            != keys[j] by {
            crate::text::lemma_before_irreflexive(keys[i]);
            if i < j {
                assert(crate::text::text_before(keys[i], keys[j]));
            } else {
                assert(crate::text::text_before(keys[j], keys[i]));
            }
        }
    }
    keys.unique_seq_to_set();
    assert(keys.to_set() =~= dom) by {
        assert forall|k: Seq<char>| keys.to_set().contains(k) <==> dom.contains(k) by {}
    }
}

impl<D> Database<D> {
    #[verifier::type_invariant]
    closed spec fn well_kept(self) -> bool {
        ticks_differ(self.active_drawers@, self.access_clock as int)
    }

    pub fn default_wal_thresholds() -> (r: (u64, u64))
        ensures
            r == (DEFAULT_WAL_SIZE_THRESHOLD, DEFAULT_WAL_OPS_THRESHOLD),
    {
        (DEFAULT_WAL_SIZE_THRESHOLD, DEFAULT_WAL_OPS_THRESHOLD)
    }

    pub fn initialize(directory: &str) -> (r: Result<Self, Error>)
        ensures
            is_opened(
                r,
                directory@,
                None,
                DEFAULT_WAL_SIZE_THRESHOLD,
                DEFAULT_WAL_OPS_THRESHOLD,
                DurabilityPolicy::Strict,
            ),
    {
        Self::initialize_with_cache_limit(directory, None)
    }

    pub fn initialize_with_cache_limit(directory: &str, max_cached_drawers: Option<usize>) -> (r:
        Result<Self, Error>)
        ensures
            is_opened(
                r,
                directory@,
                max_cached_drawers,
                DEFAULT_WAL_SIZE_THRESHOLD,
                DEFAULT_WAL_OPS_THRESHOLD,
                DurabilityPolicy::Strict,
            ),
    {
        Self::initialize_with_cache_limit_and_wal_thresholds(
            directory,
            max_cached_drawers,
            DEFAULT_WAL_SIZE_THRESHOLD,
            DEFAULT_WAL_OPS_THRESHOLD,
        )
    }

    pub fn initialize_with_wal_thresholds(
        directory: &str,
        wal_size_threshold_bytes: u64,
        wal_ops_threshold_count: u64,
    ) -> (r: Result<Self, Error>)
        ensures
            is_opened(
                r,
                directory@,
                None,
                wal_size_threshold_bytes,
                wal_ops_threshold_count,
                DurabilityPolicy::Strict,
            ),
    {
        Self::initialize_with_cache_limit_and_wal_thresholds(
            directory,
            None,
            wal_size_threshold_bytes,
            wal_ops_threshold_count,
        )
    }

    pub fn initialize_with_cache_limit_and_wal_thresholds(
        directory: &str,
        max_cached_drawers: Option<usize>,
        wal_size_threshold_bytes: u64,
        wal_ops_threshold_count: u64,
    ) -> (r: Result<Self, Error>)
        ensures
            is_opened(
                r,
                directory@,
                max_cached_drawers,
                wal_size_threshold_bytes,
                wal_ops_threshold_count,
                DurabilityPolicy::Strict,
            ),
    {
        Self::initialize_with_cache_limit_wal_thresholds_and_durability(
            directory,
            max_cached_drawers,
            wal_size_threshold_bytes,
            wal_ops_threshold_count,
            DurabilityPolicy::Strict,
        )
    }

    /// A database in a directory, of which no drawer is open yet.
    pub fn initialize_with_cache_limit_wal_thresholds_and_durability(
        directory: &str,
        max_cached_drawers: Option<usize>,
        wal_size_threshold_bytes: u64,
        wal_ops_threshold_count: u64,
        durability_policy: DurabilityPolicy,
    ) -> (r: Result<Self, Error>)
        ensures
            is_opened(
                r,
                directory@,
                max_cached_drawers,
                wal_size_threshold_bytes,
                wal_ops_threshold_count,
                durability_policy,
            ),
    {
        let no_cache = match max_cached_drawers {
            Some(n) => n == 0,
            None => false,
        };
        if no_cache {
            return Err(
                Error::invalid_input(owned("Drawer cache limit must be greater than zero")),
            );
        }
        if wal_size_threshold_bytes == 0 {
            return Err(
                Error::invalid_input(
                    owned("WAL size checkpoint threshold must be greater than zero"),
                ),
            );
        }
        if wal_ops_threshold_count == 0 {
            return Err(
                Error::invalid_input(
                    owned("WAL operation checkpoint threshold must be greater than zero"),
                ),
            );
        }
        let database = Database {
            storage_directory: owned(directory),
            active_drawers: TextMap::new(),
            max_cached_drawers,
            access_clock: 0,
            wal_bytes_since_checkpoint: 0,
            wal_ops_since_checkpoint: 0,
            wal_size_threshold_bytes,
            wal_ops_threshold_count,
            durability_policy,
            mutated_drawers: TextMap::new(),
        };
        assert(database@.mutated =~= Set::empty());
        Ok(database)
    }

    /// Notes that bytes were logged, in so many operations. The counters start again at zero
    /// behind their largest value.
    pub fn record_wal_activity(&mut self, bytes: u64, ops: u64)
        ensures
            final(self)@ == (DatabaseModel {
                wal_bytes: (old(self)@.wal_bytes + bytes) % 0x1_0000_0000_0000_0000,
                wal_ops: (old(self)@.wal_ops + ops) % 0x1_0000_0000_0000_0000,
                ..old(self)@
            }),
    {
        proof {
            use_type_invariant(&*self);
        }
        self.wal_bytes_since_checkpoint = self.wal_bytes_since_checkpoint.wrapping_add(bytes);
        self.wal_ops_since_checkpoint = self.wal_ops_since_checkpoint.wrapping_add(ops);
    }

    pub fn get_wal_counters(&self) -> (r: (u64, u64))
        ensures
            r.0 == self@.wal_bytes,
            r.1 == self@.wal_ops,
    {
        (self.wal_bytes_since_checkpoint, self.wal_ops_since_checkpoint)
    }

    pub fn reset_wal_counters(&mut self)
        ensures
            final(self)@ == (DatabaseModel { wal_bytes: 0, wal_ops: 0, ..old(self)@ }),
    {
        proof {
            use_type_invariant(&*self);
        }
        self.wal_bytes_since_checkpoint = 0;
        self.wal_ops_since_checkpoint = 0;
    }

    pub fn wal_thresholds(&self) -> (r: (u64, u64))
        ensures
            r == (self@.size_threshold, self@.ops_threshold),
    {
        (self.wal_size_threshold_bytes, self.wal_ops_threshold_count)
    }

    pub fn max_cached_drawers(&self) -> (r: Option<usize>)
        ensures
            r == self@.limit,
    {
        self.max_cached_drawers
    }

    pub fn durability_policy(&self) -> (r: DurabilityPolicy)
        ensures
            r == self@.policy,
    {
        self.durability_policy
    }

    pub fn storage_directory_path(&self) -> (r: String)
        ensures
            r@ == self@.directory,
    {
        owned(self.storage_directory.as_str())
    }

    /// The file that holds the records of a drawer.
    pub fn drawer_data_file_path(&self, drawer_name: &str) -> (r: String)
        ensures
            r@ == path_joined(self@.directory, drawer_name@ + ".drw"@),
    {
        let name = concat2(drawer_name, ".drw");
        join_path(self.storage_directory.as_str(), name.as_str())
    }

    /// The file that holds the index of a drawer.
    pub fn drawer_index_file_path(&self, drawer_name: &str) -> (r: String)
        ensures
            r@ == path_joined(self@.directory, drawer_name@ + "_index.drw"@),
    {
        let name = concat2(drawer_name, "_index.drw");
        join_path(self.storage_directory.as_str(), name.as_str())
    }

    pub fn cached_drawer_count(&self) -> (r: usize)
        ensures
            r == self@.drawers.dom().len(),
    {
        let n: usize = self.active_drawers.len();
        proof {
            lemma_key_count(self.active_drawers.keys(), self.active_drawers@.dom());
        }
        n
    }

    pub fn get_drawer(&self, name: &str) -> (r: Option<&D>)
        ensures
            match r {
                Some(d) => self@.drawers.dom().contains(name@) && self@.drawers[name@].drawer == *d,
                None => !self@.drawers.dom().contains(name@),
            },
    {
        match self.active_drawers.get(name) {
            Some(cached) => Some(&cached.drawer),
            None => None,
        }
    }

    /// Notes that a drawer is used, if it is open. The result is whether it is.
    pub fn use_drawer(&mut self, drawer_name: &str) -> (r: bool)
        requires
            old(self)@.clock < u64::MAX,
        ensures
            r == old(self)@.drawers.dom().contains(drawer_name@),
            final(self)@ == if old(self)@.drawers.dom().contains(drawer_name@) {
                DatabaseModel {
                    drawers: old(self)@.drawers.insert(
                        drawer_name@,
                        CachedDrawer {
                            drawer: old(self)@.drawers[drawer_name@].drawer,
                            last_access_tick: (old(self)@.clock + 1) as u64,
                        },
                    ),
                    clock: old(self)@.clock + 1,
                    ..old(self)@
                }
            } else {
                old(self)@
            },
    {
        proof {
            use_type_invariant(&*self);
        }
        let mut drawers: TextMap<CachedDrawer<D>> = TextMap::new();
        std::mem::swap(&mut drawers, &mut self.active_drawers);
        let ghost before = drawers@;
        match drawers.remove(drawer_name) {
            Some(cached) => {
                self.access_clock = self.access_clock + 1;
                drawers.insert(
                    owned(drawer_name),
                    CachedDrawer { drawer: cached.drawer, last_access_tick: self.access_clock },
                );
                assert(drawers@ =~= before.insert(
                    drawer_name@,
                    CachedDrawer {
                        drawer: before[drawer_name@].drawer,
                        last_access_tick: self.access_clock,
                    },
                ));
                self.active_drawers = drawers;
                true
            },
            None => {
                assert(drawers@ =~= before);
                self.active_drawers = drawers;
                false
            },
        }
    }

    /// Keeps a drawer open that was just opened, as the one that was used last, and closes others
    /// where too many are open. Drawers that somebody else uses stay open. A drawer that is open
    /// already stays the one it is, and is only used; nothing is closed then.
    pub fn load_drawer(&mut self, drawer_name: &str, drawer: D, busy: &Vec<String>)
        requires
            old(self)@.clock < u64::MAX,
        ensures
            old(self)@.drawers.dom().contains(drawer_name@) ==> final(self)@.drawers
                == old(self)@.drawers.insert(
                drawer_name@,
                CachedDrawer {
                    drawer: old(self)@.drawers[drawer_name@].drawer,
                    last_access_tick: (old(self)@.clock + 1) as u64,
                },
            ),
            !old(self)@.drawers.dom().contains(drawer_name@) ==> closed_down(
                old(self)@.drawers.insert(
                    drawer_name@,
                    CachedDrawer { drawer, last_access_tick: (old(self)@.clock + 1) as u64 },
                ),
                final(self)@.drawers,
                old(self)@.limit,
                Some(drawer_name@),
                texts(busy@).to_set(),
            ),
            final(self)@ == (DatabaseModel {
                drawers: final(self)@.drawers,
                clock: old(self)@.clock + 1,
                ..old(self)@
            }),
    {
        if self.use_drawer(drawer_name) {
            return;
        }
        proof {
            use_type_invariant(&*self);
        }
        let mut drawers: TextMap<CachedDrawer<D>> = TextMap::new();
        std::mem::swap(&mut drawers, &mut self.active_drawers);
        self.access_clock = self.access_clock + 1;
        drawers.insert(
            owned(drawer_name),
            CachedDrawer { drawer, last_access_tick: self.access_clock },
        );
        assert(ticks_differ(drawers@, self.access_clock as int));
        let left = evict_lru_drawers(
            drawers,
            self.max_cached_drawers,
            Some(drawer_name),
            busy,
            Ghost(self.access_clock as int),
        );
        self.active_drawers = left;
    }

    pub fn close_drawer(&mut self, drawer_name: &str)
        ensures
            final(self)@ == (DatabaseModel {
                drawers: old(self)@.drawers.remove(drawer_name@),
                ..old(self)@
            }),
    {
        proof {
            use_type_invariant(&*self);
        }
        let mut drawers: TextMap<CachedDrawer<D>> = TextMap::new();
        std::mem::swap(&mut drawers, &mut self.active_drawers);
        let _ = drawers.remove(drawer_name);
        self.active_drawers = drawers;
    }

    pub fn mark_drawer_mutated(&mut self, name: &str)
        ensures
            final(self)@ == (DatabaseModel { mutated: old(self)@.mutated.insert(name@), ..old(self)@ }),
    {
        proof {
            use_type_invariant(&*self);
        }
        let ghost before = self.mutated_drawers@.dom();
        let mut mutated: TextMap<()> = TextMap::new();
        std::mem::swap(&mut mutated, &mut self.mutated_drawers);
        mutated.insert(owned(name), ());
        self.mutated_drawers = mutated;
        assert(self.mutated_drawers@.dom() =~= before.insert(name@));
    }

    /// The drawers that were changed, in ascending order. They count as unchanged then.
    pub fn take_mutated_drawers(&mut self) -> (r: Vec<String>)
        ensures
            texts(r@) == key_order(old(self)@.mutated),
            final(self)@ == (DatabaseModel { mutated: Set::empty(), ..old(self)@ }),
    {
        proof {
            use_type_invariant(&*self);
        }
        let mut mutated: TextMap<()> = TextMap::new();
        assert(mutated@.dom() =~= Set::empty());
        std::mem::swap(&mut mutated, &mut self.mutated_drawers);
        mutated.key_texts()
    }
}

fn evict_lru_drawers<D>(
    drawers: TextMap<CachedDrawer<D>>,
    limit: Option<usize>,
    keep: Option<&str>,
    busy: &Vec<String>,
    Ghost(clock): Ghost<int>,
) -> (r: TextMap<CachedDrawer<D>>)
    requires
        ticks_differ(drawers@, clock),
    ensures
        closed_down(drawers@, r@, limit, opt_str(keep), texts(busy@).to_set()),
        ticks_differ(r@, clock),
{
    let max = match limit {
        Some(n) => n,
        None => {
            return drawers;
        },
    };
    let ghost start = drawers@;
    let ghost in_use = texts(busy@).to_set();
    let ghost kept = opt_str(keep);
    let mut left = drawers;
    let mut count: usize = left.len();
    proof {
        lemma_key_count(left.keys(), left@.dom());
    }
    while count > max
        invariant
            start == drawers@,
            limit == Some(max),
            ticks_differ(start, clock),
            ticks_differ(left@, clock),
            in_use == texts(busy@).to_set(),
            kept == opt_str(keep),
            left@.dom().finite(),
            count == left@.dom().len(),
            left@.dom().subset_of(start.dom()),
            forall|a: Seq<char>| #[trigger] left@.dom().contains(a) ==> left@[a] == start[a],
            forall|a: Seq<char>| #[trigger]
                start.dom().contains(a) && !left@.dom().contains(a) ==> may_close(a, kept, in_use),
            forall|a: Seq<char>, b: Seq<char>|
                #![trigger start.dom().contains(a), left@.dom().contains(b)]
                start.dom().contains(a) && !left@.dom().contains(a) && left@.dom().contains(b)
                    && may_close(b, kept, in_use) ==> start[a].last_access_tick
                    < start[b].last_access_tick,
            start.dom().len() <= max ==> left@ == start,
            start.dom().len() > max ==> left@.dom().len() >= max,
            start.dom().len() > max || count <= max,
        decreases count,
    {
        match oldest(&left, keep, busy) {
            Some(name) => {
                let ghost before = left@;
                let ghost victim = name@;
                let _ = left.remove(name.as_str());
                count = count - 1;
                proof {
                    assert(left@.dom() =~= before.dom().remove(victim));
                    assert forall|a: Seq<char>, b: Seq<char>|
                        #![trigger start.dom().contains(a), left@.dom().contains(b)]
                        start.dom().contains(a) && !left@.dom().contains(a) && left@.dom().contains(b)
                            && may_close(b, kept, in_use) implies start[a].last_access_tick
                        < start[b].last_access_tick by {
                        assert(before.dom().contains(b));
                        if a == victim {
                            assert(before.dom().contains(victim));
                            assert(before[victim].last_access_tick != before[b].last_access_tick);
                        } else {
                            assert(!before.dom().contains(a));
                        }
                    }
                }
            },
            None => {
                return left;
            },
        }
    }
    left
}

/// The drawer that may be closed and was not used for the longest time.
fn oldest<D>(drawers: &TextMap<CachedDrawer<D>>, keep: Option<&str>, busy: &Vec<String>) -> (r:
    Option<String>)
    ensures
        match r {
            Some(name) => drawers@.dom().contains(name@) && may_close(
                name@,
                opt_str(keep),
                texts(busy@).to_set(),
            ) && forall|b: Seq<char>| #[trigger]
                drawers@.dom().contains(b) && may_close(b, opt_str(keep), texts(busy@).to_set())
                    ==> drawers@[name@].last_access_tick <= drawers@[b].last_access_tick,
            None => forall|b: Seq<char>| #[trigger]
                drawers@.dom().contains(b) ==> !may_close(
                    b,
                    opt_str(keep),
                    texts(busy@).to_set(),
                ),
        },
{
    let ghost kept = opt_str(keep);
    let ghost in_use = texts(busy@).to_set();
    let ghost keys = drawers.keys();
    let n: usize = drawers.len();
    let mut best: Option<String> = None;
    let mut tick: u64 = 0;
    let mut i: usize = 0;
    while i < n
        invariant
            i <= n,
            n == keys.len(),
            keys == drawers.keys(),
            lists(keys, drawers@.dom()),
            kept == opt_str(keep),
            in_use == texts(busy@).to_set(),
            match best {
                Some(name) => drawers@.dom().contains(name@) && may_close(name@, kept, in_use)
                    && drawers@[name@].last_access_tick == tick && forall|j: int|
                    0 <= j < i && may_close(#[trigger] keys[j], kept, in_use) ==> tick
                        <= drawers@[keys[j]].last_access_tick,
                None => forall|j: int|
                    0 <= j < i ==> !may_close(#[trigger] keys[j], kept, in_use),
            },
        decreases n - i,
    {
        let name = drawers.key_at(i).as_str();
        let at: u64 = drawers.value_at(i).last_access_tick;
        let stays = match keep {
            Some(k) => same(k, name),
            None => false,
        } || holds(busy, name);
        assert(stays == !may_close(name@, kept, in_use));
        if !stays {
            let older = match &best {
                Some(_) => at < tick,
                None => true,
            };
            if older {
                best = Some(owned(name));
                tick = at;
            }
        }
        i = i + 1;
    }
    proof {
        assert forall|b: Seq<char>| #[trigger] drawers@.dom().contains(b) implies keys.contains(b) by {}
    }
    best
}

/// The drawers whose records are in the directory of a database, in ascending order.
pub fn drawer_names_on_disk(directory: &Folder) -> (r: Vec<String>)
    ensures
        texts(r@) == drawer_names(*directory),
{
    restored_drawer_names(Some(directory))
}

/// Closing drawers where too many are open leaves only one outcome: which drawers stay open is
/// settled by when they were used.
pub proof fn law_closing_is_settled<D>(
    before: Map<Seq<char>, CachedDrawer<D>>,
    a: Map<Seq<char>, CachedDrawer<D>>,
    b: Map<Seq<char>, CachedDrawer<D>>,
    limit: Option<usize>,
    keep: Option<Seq<char>>,
    busy: Set<Seq<char>>,
)
    requires
        before.dom().finite(),
        closed_down(before, a, limit, keep, busy),
        closed_down(before, b, limit, keep, busy),
    ensures
        a == b,
{
    vstd::set_lib::lemma_set_subset_finite(before.dom(), a.dom());
    vstd::set_lib::lemma_set_subset_finite(before.dom(), b.dom());
    match limit {
        None => {},
        Some(n) => {
            if before.dom().len() > n {
                lemma_nested(before, a, b, limit, keep, busy);
                if a.dom().subset_of(b.dom()) {
                    lemma_same_left(before, a, b, n, limit, keep, busy);
                } else {
                    lemma_same_left(before, b, a, n, limit, keep, busy);
                }
            }
        },
    }
}

/// Where nobody else uses the drawers, no more stay open than the limit allows.
pub proof fn law_cache_is_bounded<D>(
    before: Map<Seq<char>, CachedDrawer<D>>,
    after: Map<Seq<char>, CachedDrawer<D>>,
    limit: usize,
    keep: Option<Seq<char>>,
)
    requires
        before.dom().finite(),
        limit > 0,
        closed_down(before, after, Some(limit), keep, Set::empty()),
    ensures
        after.dom().len() <= limit,
{
    if after.dom().len() > limit {
        let one = set![keep->0];
        assert forall|b: Seq<char>| #[trigger] after.dom().contains(b) implies one.contains(b) by {
            assert(!may_close(b, keep, Set::empty()));
        }
        vstd::set_lib::lemma_len_subset(after.dom(), one);
    }
}

/// Where drawers are closed because too many are open, the one that goes was not used for longer
/// than any that stays and might have gone; the one to keep and those that others use stay, with
/// what they hold; and none goes while there is room.
pub proof fn law_longest_unused_drawer_goes<D>(
    before: Map<Seq<char>, CachedDrawer<D>>,
    after: Map<Seq<char>, CachedDrawer<D>>,
    limit: Option<usize>,
    keep: Option<Seq<char>>,
    busy: Set<Seq<char>>,
    a: Seq<char>,
    b: Seq<char>,
)
    requires
        closed_down(before, after, limit, keep, busy),
    ensures
        before.dom().contains(a) && !after.dom().contains(a) && after.dom().contains(b) && keep
            != Some(b) && !busy.contains(b) ==> before[a].last_access_tick
            < before[b].last_access_tick,
        before.dom().contains(a) && (keep == Some(a) || busy.contains(a)) ==> after.dom().contains(
            a,
        ),
        after.dom().contains(a) ==> before.dom().contains(a) && after[a] == before[a],
        limit is None ==> after == before,
        limit matches Some(n) ==> before.dom().len() <= n ==> after == before,
        limit matches Some(n) ==> before.dom().len() > n ==> after.dom().len() >= n,
        limit matches Some(n) ==> after.dom().len() > n && after.dom().contains(b) ==> keep == Some(
            b,
        ) || busy.contains(b),
{
    if after.dom().contains(a) {
        assert(before.dom().contains(a));
    }
}

/// A database is opened with any limits but those that leave room for nothing.
pub proof fn law_limits_leave_room(limit: Option<usize>, size: u64, ops: u64)
    ensures
        limits_refusal(limit, size, ops) is None <==> (limit matches Some(n) ==> n > 0) && size > 0
            && ops > 0,
        limits_refusal(limit, size, ops) matches Some(f) ==> f.kind
            == crate::error::ErrorKind::InvalidInput,
{
}

/// Of two ways to close drawers, one closes all that the other does.
proof fn lemma_nested<D>(
    before: Map<Seq<char>, CachedDrawer<D>>,
    a: Map<Seq<char>, CachedDrawer<D>>,
    b: Map<Seq<char>, CachedDrawer<D>>,
    limit: Option<usize>,
    keep: Option<Seq<char>>,
    busy: Set<Seq<char>>,
)
    requires
        closed_down(before, a, limit, keep, busy),
        closed_down(before, b, limit, keep, busy),
    ensures
        a.dom().subset_of(b.dom()) || b.dom().subset_of(a.dom()),
{
    if !a.dom().subset_of(b.dom()) && !b.dom().subset_of(a.dom()) {
        let x = choose|x: Seq<char>| a.dom().contains(x) && !b.dom().contains(x);
        let y = choose|y: Seq<char>| b.dom().contains(y) && !a.dom().contains(y);
        assert(before.dom().contains(x) && before.dom().contains(y));
        assert(may_close(x, keep, busy) && may_close(y, keep, busy));
        assert(before[x].last_access_tick < before[y].last_access_tick);
        assert(before[y].last_access_tick < before[x].last_access_tick);
    }
}

proof fn lemma_same_left<D>(
    before: Map<Seq<char>, CachedDrawer<D>>,
    a: Map<Seq<char>, CachedDrawer<D>>,
    b: Map<Seq<char>, CachedDrawer<D>>,
    n: usize,
    limit: Option<usize>,
    keep: Option<Seq<char>>,
    busy: Set<Seq<char>>,
)
    requires
        limit == Some(n),
        before.dom().finite(),
        before.dom().len() > n,
        closed_down(before, a, limit, keep, busy),
        closed_down(before, b, limit, keep, busy),
        a.dom().subset_of(b.dom()),
    ensures
        a == b,
{
    vstd::set_lib::lemma_set_subset_finite(before.dom(), a.dom());
    vstd::set_lib::lemma_set_subset_finite(before.dom(), b.dom());
    if b.dom().len() <= n {
        vstd::set_lib::lemma_len_subset(a.dom(), b.dom());
        assert(a.dom().len() == b.dom().len());
        vstd::set_lib::lemma_subset_equality(a.dom(), b.dom());
    } else {
        assert forall|x: Seq<char>| b.dom().contains(x) implies a.dom().contains(x) by {
            assert(!may_close(x, keep, busy));
            assert(before.dom().contains(x));
        }
        assert(a.dom() =~= b.dom());
    }
    assert(a =~= b);
}

} // verus!
