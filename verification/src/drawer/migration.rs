//! Reading records of a drawer that is in an earlier format: a record that is out of date is
//! stored anew.
use crate::drawer::blocks::{live_block, DataBlockIndexEntry};
use crate::drawer::contents::{
    historical_block, lemma_historical_unique, live_records, live_set, record_of, records_at,
};
use crate::drawer::indexing::{
    are_candidates, can_satisfy, changes, field_readied, lookup_start, readied, readied_from,
    records_with_value, stored, with_value, CandidateLookup, ChangeModel, IndexChange, LookupModel,
    StoredRecords,
};
use crate::drawer::legacy::{
    buries_entry, migrated, migration_keys, migration_logs, record_migrated, MigrationEffects,
    MigrationPlan,
};
use crate::drawer::reading::apart;
use crate::drawer::records::{offset_of, opt_bytes};
use crate::drawer::replay::{is_outdated, IndexSlots};
use crate::drawer::vacuum::{is_vacuumed, live_models, LiveRecord, VacuumPlan};
use crate::drawer::{
    logs, Drawer, DrawerModel, LogModel, DRAWER_METADATA_FORMAT_VERSION,
};
use crate::error::{bad_data, Error, Failure};
use crate::fields::{key_order, TextMap};
use crate::offsets::{lemma_offset_order, offset_order, OffsetMap};
use crate::pointer::clean_token;
use crate::value::{json_fields, jsons, opt_value, Json, JsonValue};
use vstd::prelude::*;

verus! {

/// Where a record that is stored anew can go.
pub struct MigrationWrite {
    /// The bytes of the record as it is stored anew.
    pub payload: Vec<u8>,
    /// Where it is written, and the size of its slot, where it does not fit into its old one.
    pub offset: u64,
    pub size_class: usize,
    /// The length of the data file.
    pub file_len: u64,
    /// The bytes of the record as it was.
    pub old_payload: Vec<u8>,
}

/// A record that was read, and stored anew where it was out of date.
pub struct Migrated {
    pub record: Option<JsonValue>,
    pub effects: Option<MigrationEffects>,
    /// The block to overwrite with a tombstone and to recycle: its size and its offset.
    pub freed: Option<(usize, u64)>,
}

/// The model of reading a record: the drawer and its records then, the record, and, where it was
/// stored anew, whether its entry is buried and which entries are written.
#[verifier::ext_equal]
pub struct MigratedModel {
    pub drawer: DrawerModel,
    pub records: Map<u64, Json>,
    pub record: Option<Json>,
    pub effects: Option<(bool, Seq<LogModel>)>,
    pub freed: Option<(usize, u64)>,
}

/// Storing a record anew.
pub open spec fn stored_anew(
    m: DrawerModel,
    records: Map<u64, Json>,
    offset: u64,
    old_key: Seq<char>,
    new_key: Seq<char>,
    new_record: Json,
    old_size: usize,
    w: MigrationWrite,
) -> MigratedModel {
    let fits = w.payload@.len() <= old_size;
    let resolved = if fits {
        offset
    } else {
        w.offset
    };
    let block = live_block(
        w.payload@,
        if fits {
            old_size
        } else {
            w.size_class
        },
    );
    let plan = if fits {
        MigrationPlan::InPlace { size_class: old_size }
    } else {
        MigrationPlan::Move { old_size_class: old_size }
    };
    MigratedModel {
        drawer: record_migrated(m, old_key, new_key, offset, resolved, block, plan),
        records: if fits {
            records.insert(resolved, new_record)
        } else {
            records.insert(resolved, new_record).remove(offset)
        },
        record: Some(new_record),
        effects: Some(
            (
                buries_entry(old_key, new_key),
                migration_logs(m, old_key, new_key, resolved, block),
            ),
        ),
        freed: if fits {
            None
        } else {
            Some((old_size, offset))
        },
    }
}

/// Reading the record at an offset.
pub open spec fn read_at(
    m: DrawerModel,
    records: Map<u64, Json>,
    offset: u64,
    w: MigrationWrite,
) -> Result<MigratedModel, Failure> {
    let plain = MigratedModel { drawer: m, records, record: None, effects: None, freed: None };
    if !records.dom().contains(offset) {
        Ok(plain)
    } else {
        let record = records[offset];
        let anew = migrated(record, Some(m.primary_key));
        if !is_outdated(m.format_version) || anew == record {
            Ok(MigratedModel { record: Some(record), ..plain })
        } else {
            match migration_keys(m, record, anew) {
                Err(f) => Err(f),
                Ok((old_key, new_key)) => match historical_block(
                    m,
                    offset,
                    w.file_len,
                    Some(w.old_payload@),
                ) {
                    None => Err(
                        bad_data(
                            "Cannot migrate legacy record because its block metadata is missing"@,
                        ),
                    ),
                    Some((_, block)) => Ok(
                        stored_anew(
                            m,
                            records,
                            offset,
                            old_key,
                            new_key,
                            anew,
                            block.size_class,
                            w,
                        ),
                    ),
                },
            }
        }
    }
}

/// Whether this is what a reading gave.
pub open spec fn is_reading(model: MigratedModel, read: Migrated) -> bool {
    &&& opt_value(read.record) == model.record
    &&& read.freed == model.freed
    &&& match (model.effects, read.effects) {
        (Some((buried, written)), Some(effects)) => effects.buries_entry == buried && logs(
            effects.index_logs@,
        ) == written,
        (None, None) => true,
        _ => false,
    }
}

/// Whether this is what reading a record gave, and the drawer and the records are as they should
/// be. A record that cannot be stored anew leaves them as they were.
pub open spec fn is_read(
    wanted: Result<MigratedModel, Failure>,
    before: (DrawerModel, Map<u64, Json>),
    after: (DrawerModel, Map<u64, Json>),
    r: Result<Migrated, Error>,
) -> bool {
    match (wanted, r) {
        (Ok(model), Ok(read)) => after == (model.drawer, model.records) && is_reading(model, read),
        (Err(f), Err(e)) => e@ == f && after == before,
        _ => false,
    }
}

impl Drawer {
    /// Reads the record at an offset, and stores it anew where it is out of date.
    pub fn read_record_at_offset_with_lazy_migration(
        &mut self,
        records: &mut StoredRecords,
        offset: u64,
        write: &MigrationWrite,
    ) -> (r: Result<Migrated, Error>)
        ensures
            is_read(
                read_at(old(self)@, stored(*old(records)), offset, *write),
                (old(self)@, stored(*old(records))),
                (final(self)@, stored(*final(records))),
                r,
            ),
    {
        let ghost m = self@;
        let ghost held = stored(*records);
        let record: JsonValue = match records.get(offset) {
            Some(record) => record.clone(),
            None => {
                return Ok(Migrated { record: None, effects: None, freed: None });
            },
        };
        let anew: JsonValue = match self.migrate_legacy_record_value(&record) {
            Some(anew) => anew,
            None => {
                return Ok(Migrated { record: Some(record), effects: None, freed: None });
            },
        };
        let old_bytes: Option<&[u8]> = Some(write.old_payload.as_slice());
        let old_block = self.historical_block_entry(offset, write.file_len, old_bytes);
        proof {
            assert(opt_bytes(old_bytes) == Some(write.old_payload@));
            lemma_historical_unique(
                m,
                offset,
                write.file_len,
                Some(write.old_payload@),
                old_block,
            );
        }
        let (plan, old_key, new_key) = match self.plan_migration(
            &record,
            &anew,
            old_block,
            write.payload.len(),
        ) {
            Ok(planned) => planned,
            Err(e) => {
                return Err(e);
            },
        };
        let (resolved, size_class, freed): (u64, usize, Option<(usize, u64)>) = match plan {
            MigrationPlan::InPlace { size_class } => (offset, size_class, None),
            MigrationPlan::Move { old_size_class } => (
                write.offset,
                write.size_class,
                Some((old_size_class, offset)),
            ),
        };
        let block = DataBlockIndexEntry::live(write.payload.as_slice(), size_class);
        let effects = self.apply_migration(
            old_key.as_str(),
            new_key.as_str(),
            offset,
            resolved,
            block,
            plan,
        );
        let copy = anew.clone();
        records.insert(resolved, anew);
        if freed.is_some() {
            records.remove(offset);
        }
        proof {
            let wanted = stored_anew(
                m,
                held,
                offset,
                old_key@,
                new_key@,
                copy@,
                (old_block->0).1.size_class,
                *write,
            );
            assert(stored(*records) =~= wanted.records);
        }
        Ok(Migrated { record: Some(copy), effects: Some(effects), freed })
    }

    /// Reads the record with a key, and stores it anew where it is out of date.
    pub fn find_by_primary_key_with_migration(
        &mut self,
        records: &mut StoredRecords,
        key: &str,
        write: &MigrationWrite,
    ) -> (r: Result<Migrated, Error>)
        ensures
            match offset_of(old(self)@, key@) {
                Some(offset) => is_read(
                    read_at(old(self)@, stored(*old(records)), offset, *write),
                    (old(self)@, stored(*old(records))),
                    (final(self)@, stored(*final(records))),
                    r,
                ),
                None => {
                    &&& final(self)@ == old(self)@
                    &&& stored(*final(records)) == stored(*old(records))
                    &&& r matches Ok(read) && read.record is None && read.effects is None
                        && read.freed is None
                },
            },
    {
        match self.find_offset(key) {
            Some(offset) => self.read_record_at_offset_with_lazy_migration(records, offset, write),
            None => Ok(Migrated { record: None, effects: None, freed: None }),
        }
    }
}

/// What reading several records leaves: the drawer and its records then, each reading, and why
/// the last one failed.
#[verifier::ext_equal]
pub struct ReadsModel {
    pub drawer: DrawerModel,
    pub records: Map<u64, Json>,
    pub reads: Seq<MigratedModel>,
    pub failure: Option<Failure>,
}

/// Reading the records at the first `n` offsets, one after another, up to the first that fails.
pub open spec fn read_first(
    m: DrawerModel,
    records: Map<u64, Json>,
    offsets: Seq<u64>,
    writes: Map<u64, MigrationWrite>,
    n: int,
) -> ReadsModel
    decreases n,
{
    if n <= 0 {
        ReadsModel { drawer: m, records, reads: Seq::empty(), failure: None }
    } else {
        let before = read_first(m, records, offsets, writes, n - 1);
        if before.failure is Some {
            before
        } else {
            match read_at(before.drawer, before.records, offsets[n - 1], writes[offsets[n - 1]]) {
                Ok(read) => ReadsModel {
                    drawer: read.drawer,
                    records: read.records,
                    reads: before.reads.push(read),
                    failure: None,
                },
                Err(f) => ReadsModel { failure: Some(f), ..before },
            }
        }
    }
}

/// Reading every live record, in the order of the offsets.
pub open spec fn read_all(
    m: DrawerModel,
    records: Map<u64, Json>,
    writes: Map<u64, MigrationWrite>,
) -> ReadsModel {
    let offsets = offset_order(live_set(m));
    read_first(m, records, offsets, writes, offsets.len() as int)
}

/// The records that the first `n` readings found.
pub open spec fn found_records(reads: Seq<MigratedModel>, n: int) -> Seq<Json>
    decreases n,
{
    if n <= 0 {
        Seq::empty()
    } else {
        let before = found_records(reads, n - 1);
        match reads[n - 1].record {
            Some(record) => before.push(record),
            None => before,
        }
    }
}

/// Whether these are the readings.
pub open spec fn are_readings(models: Seq<MigratedModel>, reads: Seq<Migrated>) -> bool {
    &&& models.len() == reads.len()
    &&& forall|i: int| 0 <= i < reads.len() ==> is_reading(models[i], #[trigger] reads[i])
}

/// A failure ends the reading.
proof fn lemma_failure_ends(
    m: DrawerModel,
    records: Map<u64, Json>,
    offsets: Seq<u64>,
    writes: Map<u64, MigrationWrite>,
    i: int,
    n: int,
)
    requires
        i <= n,
        read_first(m, records, offsets, writes, i).failure is Some,
    ensures
        read_first(m, records, offsets, writes, n) == read_first(m, records, offsets, writes, i),
    decreases n - i,
{
    if i < n {
        lemma_failure_ends(m, records, offsets, writes, i, n - 1);
    }
}

/// The records of a drawer that were read, and those among them that were stored anew. The
/// readings are those of the live offsets, in ascending order, up to the first that failed.
pub struct MigrationReads {
    pub reads: Vec<Migrated>,
    pub outcome: Result<Vec<JsonValue>, Error>,
}

/// A drawer whose records were all read and then packed.
pub struct MigrationRun {
    pub reads: Vec<Migrated>,
    pub outcome: Result<VacuumPlan, Error>,
}

/// Where the records of a drawer can go that are stored anew, by their offsets.
pub type MigrationWrites = OffsetMap<MigrationWrite>;

/// Whether it is known of each record where it can go. A drawer in the present format stores none
/// anew.
pub open spec fn can_store(m: DrawerModel, records: StoredRecords, writes: MigrationWrites) -> bool {
    is_outdated(m.format_version) ==> records@.dom().subset_of(writes@.dom())
}

/// Whether this is what reading some records gave, and the drawer and the records are as they
/// should be.
pub open spec fn are_read(
    wanted: ReadsModel,
    after: (DrawerModel, Map<u64, Json>),
    r: MigrationReads,
) -> bool {
    &&& after == (wanted.drawer, wanted.records)
    &&& are_readings(wanted.reads, r.reads@)
    &&& match (wanted.failure, r.outcome) {
        (Some(f), Err(e)) => e@ == f,
        (None, Ok(found)) => jsons(found@) == found_records(
            wanted.reads,
            wanted.reads.len() as int,
        ),
        _ => false,
    }
}

impl Drawer {
    /// Reads the records at some offsets, one after another, and stores those anew that are out of
    /// date.
    pub fn records_at_offsets_with_migration(
        &mut self,
        records: &mut StoredRecords,
        offsets: &Vec<u64>,
        writes: &MigrationWrites,
    ) -> (r: MigrationReads)
        requires
            can_store(old(self)@, *old(records), *writes),
        ensures
            are_read(
                read_first(
                    old(self)@,
                    stored(*old(records)),
                    offsets@,
                    writes@,
                    offsets@.len() as int,
                ),
                (final(self)@, stored(*final(records))),
                r,
            ),
    {
        let ghost m = self@;
        let ghost held = stored(*records);
        let mut reads: Vec<Migrated> = Vec::new();
        let mut found: Vec<JsonValue> = Vec::new();
        let mut i: usize = 0;
        assert(jsons(found@) =~= Seq::empty());
        while i < offsets.len()
            invariant
                m == old(self)@,
                held == stored(*old(records)),
                i <= offsets@.len(),
                can_store(self@, *records, *writes),
                ({
                    let so_far = read_first(m, held, offsets@, writes@, i as int);
                    &&& self@ == so_far.drawer
                    &&& stored(*records) == so_far.records
                    &&& so_far.failure is None
                    &&& are_readings(so_far.reads, reads@)
                    &&& so_far.reads.len() == i
                    &&& jsons(found@) == found_records(so_far.reads, i as int)
                }),
            decreases offsets@.len() - i,
        {
            let ghost before = read_first(m, held, offsets@, writes@, i as int);
            let ghost there = records@.dom();
            let offset: u64 = offsets[i];
            assert(stored(*records).dom().contains(offset) == records@.dom().contains(offset));
            let write: Option<&MigrationWrite> = if self.needs_format_migration() {
                writes.get(offset)
            } else {
                None
            };
            let read: Migrated = match write {
                Some(write) => match self.read_record_at_offset_with_lazy_migration(
                    records,
                    offset,
                    write,
                ) {
                    Ok(read) => read,
                    Err(e) => {
                        proof {
                            lemma_failure_ends(
                                m,
                                held,
                                offsets@,
                                writes@,
                                i + 1,
                                offsets@.len() as int,
                            );
                        }
                        return MigrationReads { reads, outcome: Err(e) };
                    },
                },
                None => match records.get(offset) {
                    Some(record) => Migrated {
                        record: Some(record.clone()),
                        effects: None,
                        freed: None,
                    },
                    None => Migrated { record: None, effects: None, freed: None },
                },
            };
            let ghost now = read_first(m, held, offsets@, writes@, i + 1);
            let ghost listed = jsons(found@);
            proof {
                assert(now.reads == before.reads.push(now.reads[i as int]));
                lemma_found_so_far(now.reads, before.reads, i as int);
                if is_outdated(self@.format_version) {
                    assert(now.records == before.records);
                    assert(stored(*records).dom() =~= records@.dom());
                    assert(before.records.dom() =~= there);
                }
            }
            match &read.record {
                Some(record) => {
                    found.push(record.clone());
                    assert(jsons(found@) =~= listed.push(record@));
                },
                None => {},
            }
            reads.push(read);
            i = i + 1;
        }
        MigrationReads { reads, outcome: Ok(found) }
    }

    /// Reads every live record, and stores those anew that are out of date.
    fn read_live_records(
        &mut self,
        records: &mut StoredRecords,
        writes: &MigrationWrites,
    ) -> (r: MigrationReads)
        requires
            can_store(old(self)@, *old(records), *writes),
        ensures
            are_read(
                read_all(old(self)@, stored(*old(records)), writes@),
                (final(self)@, stored(*final(records))),
                r,
            ),
    {
        let ghost m = self@;
        let offsets = self.sorted_live_primary_offsets();
        proof {
            assert forall|o: u64| #[trigger] live_set(m).contains(o) <==> offsets@.contains(o) by {
                if offsets@.contains(o) {
                    assert(exists|k: Seq<char>| #[trigger] offset_of(m, k) == Some(o));
                }
            }
            lemma_offset_order(offsets@, live_set(m));
        }
        self.records_at_offsets_with_migration(records, &offsets, writes)
    }

    /// The live records, in the order of their offsets, where those that are out of date are
    /// stored anew. Once one was, the drawer is in the present format, and the rest are read as
    /// they are.
    pub fn find_all_records_with_migration(
        &mut self,
        records: &mut StoredRecords,
        writes: &MigrationWrites,
    ) -> (r: MigrationReads)
        requires
            can_store(old(self)@, *old(records), *writes),
        ensures
            ({
                let m = old(self)@;
                let held = stored(*old(records));
                if is_outdated(m.format_version) {
                    are_read(
                        read_all(m, held, writes@),
                        (final(self)@, stored(*final(records))),
                        r,
                    )
                } else {
                    &&& final(self)@ == m
                    &&& stored(*final(records)) == held
                    &&& r.reads@.len() == 0
                    &&& r.outcome matches Ok(found) && jsons(found@) == live_records(m, held)
                }
            }),
    {
        if !self.needs_format_migration() {
            return MigrationReads { reads: Vec::new(), outcome: Ok(self.find_all_records(records)) };
        }
        self.read_live_records(records, writes)
    }

    /// Brings a drawer into the present format: reads every live record, in the order of the
    /// offsets, as it is read one by one, and then packs the live records, which are given as
    /// they are read by then. Where one cannot be stored anew, nothing is packed, and what was
    /// stored until then stays.
    pub fn migrate_all_records(
        &mut self,
        records: &mut StoredRecords,
        writes: &MigrationWrites,
        live: &Vec<LiveRecord>,
    ) -> (r: MigrationRun)
        requires
            can_store(old(self)@, *old(records), *writes),
        ensures
            ({
                let all = read_all(old(self)@, stored(*old(records)), writes@);
                &&& stored(*final(records)) == all.records
                &&& are_readings(all.reads, r.reads@)
                &&& match all.failure {
                    Some(f) => r.outcome matches Err(e) && e@ == f && final(self)@ == all.drawer,
                    None => is_vacuumed(
                        present_format(all.drawer),
                        live_models(live@),
                        final(self)@,
                        r.outcome,
                    ),
                }
            }),
    {
        let MigrationReads { reads, outcome } = self.read_live_records(records, writes);
        match outcome {
            Ok(_) => {},
            Err(e) => {
                return MigrationRun { reads, outcome: Err(e) };
            },
        }
        let ghost read = self@;
        self.metadata_format_version = DRAWER_METADATA_FORMAT_VERSION;
        assert(self@ =~= present_format(read));
        let outcome = self.vacuum(live);
        MigrationRun { reads, outcome }
    }

    /// The records that hold a value in an indexed field; none where the field has no index. Those
    /// that are out of date are stored anew.
    pub fn find_by_secondary_key(
        &mut self,
        records: &mut StoredRecords,
        slots: &IndexSlots,
        field: &str,
        key: &str,
        writes: &MigrationWrites,
    ) -> (r: SecondaryFound)
        requires
            can_store(old(self)@, *old(records), *writes),
        ensures
            ({
                let m = old(self)@;
                let held = stored(*old(records));
                let after = (final(self)@, stored(*final(records)));
                let filter = map![field@ => Json::Text(key@)];
                let l = readied(m, slots@.dom(), held, filter);
                if !can_satisfy(m, field@) {
                    &&& after == (m, held)
                    &&& changes(r.changes@) == Seq::<ChangeModel>::empty()
                    &&& !r.persist
                    &&& r.reads@.len() == 0
                    &&& r.outcome matches Ok(found) && jsons(found@) == Seq::<Json>::empty()
                } else {
                    &&& changes(r.changes@) == l.changes
                    &&& r.persist == l.fresh
                    &&& match l.stop {
                        Some(Some(f)) => {
                            &&& after == (l.drawer, held)
                            &&& r.reads@.len() == 0
                            &&& r.outcome matches Err(e) && e@ == f
                        },
                        _ => if l.stop is Some || l.fresh {
                            scanned_for(l.drawer, held, writes@, field@, key@, after, r)
                        } else {
                            exists|offsets: Seq<u64>| #[trigger]
                                are_candidates(l.drawer, filter, offsets) && are_read(
                                    read_first(
                                        l.drawer,
                                        held,
                                        offsets,
                                        writes@,
                                        offsets.len() as int,
                                    ),
                                    after,
                                    MigrationReads { reads: r.reads, outcome: r.outcome },
                                )
                        },
                    }
                }
            }),
    {
        let ghost m = self@;
        let ghost filter = map![field@ => Json::Text(key@)];
        let ghost l = readied(m, slots@.dom(), stored(*records), filter);
        proof {
            lemma_readied_format(lookup_start(m, slots@.dom()), stored(*records), filter, 0);
        }
        let nothing: Vec<Migrated> = Vec::new();
        match self.lookup_by_secondary_key(records, slots, field, key) {
            None => {
                let none: Vec<JsonValue> = Vec::new();
                let same: Vec<IndexChange> = Vec::new();
                assert(jsons(none@) =~= Seq::<Json>::empty());
                assert(changes(same@) =~= Seq::<ChangeModel>::empty());
                SecondaryFound { changes: same, persist: false, reads: nothing, outcome: Ok(none) }
            },
            Some(lookup) => {
                let CandidateLookup { changes: made, persist, outcome } = lookup;
                match outcome {
                    Err(e) => SecondaryFound {
                        changes: made,
                        persist,
                        reads: nothing,
                        outcome: Err(e),
                    },
                    Ok(Some(offsets)) => {
                        let MigrationReads { reads, outcome } =
                            self.records_at_offsets_with_migration(records, &offsets, writes);
                        assert(are_candidates(l.drawer, filter, offsets@));
                        SecondaryFound { changes: made, persist, reads, outcome }
                    },
                    Ok(None) => {
                        let MigrationReads { reads, outcome } =
                            self.find_all_records_with_migration(records, writes);
                        let outcome: Result<Vec<JsonValue>, Error> = match outcome {
                            Ok(all) => {
                                assert(jsons(all@).len() == all@.len());
                                Ok(records_with_value(&all, field, key))
                            },
                            Err(e) => Err(e),
                        };
                        SecondaryFound { changes: made, persist, reads, outcome }
                    },
                }
            },
        }
    }
}

/// Whether this is what came of reading the records that a filter may find, once the indexes for
/// it were made ready: those that the indexes list, or every live record.
pub open spec fn are_filtered(
    l: LookupModel,
    held: Map<u64, Json>,
    filter: Map<Seq<char>, Json>,
    writes: Map<u64, MigrationWrite>,
    after: (DrawerModel, Map<u64, Json>),
    r: SecondaryFound,
) -> bool {
    &&& changes(r.changes@) == l.changes
    &&& r.persist == l.fresh
    &&& match l.stop {
        Some(Some(f)) => {
            &&& after == (l.drawer, held)
            &&& r.reads@.len() == 0
            &&& r.outcome matches Err(e) && e@ == f
        },
        _ => if l.stop is Some || l.fresh || filter.dom() =~= Set::<Seq<char>>::empty() {
            if is_outdated(l.drawer.format_version) {
                are_read(
                    read_all(l.drawer, held, writes),
                    after,
                    MigrationReads { reads: r.reads, outcome: r.outcome },
                )
            } else {
                &&& after == (l.drawer, held)
                &&& r.reads@.len() == 0
                &&& r.outcome matches Ok(found) && jsons(found@) == live_records(l.drawer, held)
            }
        } else {
            exists|offsets: Seq<u64>| #[trigger]
                are_candidates(l.drawer, filter, offsets) && are_read(
                    read_first(l.drawer, held, offsets, writes, offsets.len() as int),
                    after,
                    MigrationReads { reads: r.reads, outcome: r.outcome },
                )
        },
    }
}

impl Drawer {
    /// The records that a filter may find: those that the indexes list for it, or every live
    /// record. Those that are out of date are stored anew. Each has to be held against the filter.
    pub fn records_for_filter(
        &mut self,
        records: &mut StoredRecords,
        slots: &IndexSlots,
        filter: &TextMap<JsonValue>,
        writes: &MigrationWrites,
    ) -> (r: SecondaryFound)
        requires
            can_store(old(self)@, *old(records), *writes),
        ensures
            are_filtered(
                readied(
                    old(self)@,
                    slots@.dom(),
                    stored(*old(records)),
                    json_fields(*filter),
                ),
                stored(*old(records)),
                json_fields(*filter),
                writes@,
                (final(self)@, stored(*final(records))),
                r,
            ),
    {
        let ghost wanted = json_fields(*filter);
        let ghost l = readied(self@, slots@.dom(), stored(*records), wanted);
        proof {
            lemma_readied_format(lookup_start(self@, slots@.dom()), stored(*records), wanted, 0);
            assert(wanted.dom() =~= filter@.dom());
        }
        let CandidateLookup { changes: made, persist, outcome } = self.indexed_candidate_offsets(
            records,
            slots,
            filter,
        );
        match outcome {
            Err(e) => SecondaryFound {
                changes: made,
                persist,
                reads: Vec::new(),
                outcome: Err(e),
            },
            Ok(Some(offsets)) => {
                let MigrationReads { reads, outcome } = self.records_at_offsets_with_migration(
                    records,
                    &offsets,
                    writes,
                );
                assert(are_candidates(l.drawer, wanted, offsets@));
                SecondaryFound { changes: made, persist, reads, outcome }
            },
            Ok(None) => {
                let MigrationReads { reads, outcome } = self.find_all_records_with_migration(
                    records,
                    writes,
                );
                SecondaryFound { changes: made, persist, reads, outcome }
            },
        }
    }
}

/// What a search by the value of a field gives: the changes to the index file, whether the
/// metadata has to be written, what was read of each record, and the records.
pub struct SecondaryFound {
    pub changes: Vec<IndexChange>,
    pub persist: bool,
    pub reads: Vec<Migrated>,
    pub outcome: Result<Vec<JsonValue>, Error>,
}

/// Whether this is what came of looking at every record for a value of a field.
pub open spec fn scanned_for(
    m: DrawerModel,
    held: Map<u64, Json>,
    writes: Map<u64, MigrationWrite>,
    field: Seq<char>,
    key: Seq<char>,
    after: (DrawerModel, Map<u64, Json>),
    r: SecondaryFound,
) -> bool {
    if is_outdated(m.format_version) {
        let all = read_all(m, held, writes);
        let found = found_records(all.reads, all.reads.len() as int);
        &&& after == (all.drawer, all.records)
        &&& are_readings(all.reads, r.reads@)
        &&& match (all.failure, r.outcome) {
            (Some(f), Err(e)) => e@ == f,
            (None, Ok(records)) => jsons(records@) == with_value(
                found,
                field,
                key,
                found.len() as int,
            ),
            _ => false,
        }
    } else {
        let found = live_records(m, held);
        &&& after == (m, held)
        &&& r.reads@.len() == 0
        &&& r.outcome matches Ok(records) && jsons(records@) == with_value(
            found,
            field,
            key,
            found.len() as int,
        )
    }
}

/// To make indexes ready leaves the format of a drawer.
proof fn lemma_readied_format(
    l: LookupModel,
    records: Map<u64, Json>,
    filter: Map<Seq<char>, Json>,
    i: int,
)
    ensures
        readied_from(l, records, filter, i).drawer.format_version == l.drawer.format_version,
    decreases key_order(filter.dom()).len() - i,
{
    let fields = key_order(filter.dom());
    if l.stop is None && i < fields.len() {
        lemma_readied_format(
            field_readied(l, records, fields[i], filter[fields[i]]),
            records,
            filter,
            i + 1,
        );
    }
}

/// A drawer that is in the present format.
pub open spec fn present_format(m: DrawerModel) -> DrawerModel {
    DrawerModel { format_version: DRAWER_METADATA_FORMAT_VERSION, ..m }
}

proof fn lemma_found_so_far(reads: Seq<MigratedModel>, before: Seq<MigratedModel>, n: int)
    requires
        n <= before.len() <= reads.len(),
        forall|i: int| 0 <= i < before.len() ==> reads[i] == before[i],
    ensures
        found_records(reads, n) == found_records(before, n),
    decreases n,
{
    if n > 0 {
        lemma_found_so_far(reads, before, n - 1);
    }
}

/// Reading the records of a drawer that is in the present format finds its live records and
/// changes nothing.
pub proof fn law_present_drawer_is_only_read(
    m: DrawerModel,
    records: Map<u64, Json>,
    writes: Map<u64, MigrationWrite>,
)
    requires
        !is_outdated(m.format_version),
    ensures
        ({
            let all = read_all(m, records, writes);
            &&& all.drawer == m
            &&& all.records == records
            &&& all.failure is None
            &&& found_records(all.reads, all.reads.len() as int) == live_records(m, records)
        }),
{
    let offsets = offset_order(live_set(m));
    lemma_only_read(m, records, offsets, writes, offsets.len() as int);
}

pub proof fn lemma_only_read(
    m: DrawerModel,
    records: Map<u64, Json>,
    offsets: Seq<u64>,
    writes: Map<u64, MigrationWrite>,
    n: int,
)
    requires
        !is_outdated(m.format_version),
        n >= 0,
    ensures
        ({
            let all = read_first(m, records, offsets, writes, n);
            &&& all.drawer == m
            &&& all.records == records
            &&& all.failure is None
            &&& all.reads.len() == n
            &&& found_records(all.reads, n) == records_at(records, offsets, n)
        }),
    decreases n,
{
    if n > 0 {
        lemma_only_read(m, records, offsets, writes, n - 1);
        let before = read_first(m, records, offsets, writes, n - 1);
        let all = read_first(m, records, offsets, writes, n);
        lemma_found_so_far(all.reads, before.reads, n - 1);
    }
}

/// A record that was stored anew is read back under its new key, and every record under a key
/// that is not one of its own is read as before. It goes where no record stands.
pub proof fn law_migrated_record_is_read(
    m: DrawerModel,
    records: Map<u64, Json>,
    offset: u64,
    old_key: Seq<char>,
    new_key: Seq<char>,
    new_record: Json,
    old_size: usize,
    w: MigrationWrite,
)
    requires
        apart(m),
        offset_of(m, old_key) == Some(offset),
        w.offset != offset,
        forall|k: Seq<char>| #[trigger] offset_of(m, k) != Some(w.offset),
    ensures
        ({
            let after = stored_anew(
                m,
                records,
                offset,
                old_key,
                new_key,
                new_record,
                old_size,
                w,
            );
            &&& record_of(after.drawer, after.records, new_key) == Some(new_record)
            &&& forall|k: Seq<char>|
                k != old_key && k != new_key && k != clean_token(old_key) ==> #[trigger] record_of(
                    after.drawer,
                    after.records,
                    k,
                ) == record_of(m, records, k)
        }),
{
    let after = stored_anew(m, records, offset, old_key, new_key, new_record, old_size, w);
    assert forall|k: Seq<char>|
        k != old_key && k != new_key && k != clean_token(old_key) implies #[trigger] record_of(
        after.drawer,
        after.records,
        k,
    ) == record_of(m, records, k) by {
        assert(offset_of(after.drawer, k) == offset_of(m, k));
        assert(offset_of(m, k) is Some ==> offset_of(m, k) != offset_of(m, old_key));
        assert(offset_of(m, k) != Some(w.offset));
    }
}

} // verus!
