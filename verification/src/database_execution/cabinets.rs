//! The open drawers of a database: records written, read and deleted by their pointers.
use crate::database_execution::{
    full_record, strip_record_id, without_id, PreparedModel, PreparedRecord,
};
use crate::drawer::blocks::DataBlockIndexEntry;
use crate::drawer::bulk::batch_check;
use crate::drawer::contents::{
    batch_records, batch_written, effects_models, first_problem, live_records, record_of,
    write_effects, write_models, written, BatchModel, RecordWrite, Upserted, WriteModel,
};
use crate::drawer::indexing::{
    are_candidates, changes, readied, stored, ChangeModel, IndexChange, StoredRecords,
};
use crate::drawer::migration::{
    can_store, is_read, is_reading, read_at, Migrated, MigratedModel, MigrationWrite,
    MigrationWrites,
};
use crate::drawer::reading::{apart, free_for, law_written_record_is_read};
use crate::drawer::records::{offset_of, DrawerEffects};
use crate::drawer::relations::upsert_check;
use crate::drawer::replay::{
    chosen_unique, is_outdated, known_metadata, opened, replay_start, replayed, slot_models,
    DrawerMetadata, IndexSlot, IndexSlots,
};
use crate::drawer::vacuum::metadata_of;
use crate::drawer::{Drawer, DrawerModel};
use crate::error::{bad_data, Error, Failure};
use crate::fields::TextMap;
use crate::pointer::{
    clean_token, law_pointer_round_trip, no_pointer, parse_pointer, pointer_parts, pointer_text,
};
use crate::text::{opt_text, owned, starts_with, texts, without_leading};
use crate::value::{json_fields, Json, JsonValue};
use vstd::prelude::*;

verus! {

/// A drawer that is open, and the records that stand in its data file.
pub struct Cabinet {
    pub drawer: Drawer,
    pub records: StoredRecords,
}

/// The model of an open drawer.
#[verifier::ext_equal]
pub struct CabinetModel {
    pub drawer: DrawerModel,
    pub records: Map<u64, Json>,
}

impl View for Cabinet {
    type V = CabinetModel;

    open spec fn view(&self) -> CabinetModel {
        CabinetModel { drawer: self.drawer@, records: stored(self.records) }
    }
}

/// The model of the open drawers.
pub open spec fn cabinets(drawers: TextMap<Cabinet>) -> Map<Seq<char>, CabinetModel> {
    Map::new(|k: Seq<char>| drawers@.dom().contains(k), |k: Seq<char>| drawers@[k]@)
}

/// A drawer that was not there before.
pub open spec fn new_cabinet(name: Seq<char>) -> CabinetModel {
    let known = known_metadata(None);
    CabinetModel {
        drawer: opened(
            name,
            "_id"@,
            Seq::empty(),
            known,
            replayed(
                replay_start(chosen_unique(Seq::empty(), known), known),
                Seq::empty(),
                0,
                "_id"@,
                is_outdated(known.format_version),
                0,
            ),
        ),
        records: Map::empty(),
    }
}

/// The drawer with the name; a new one where it is not open.
pub open spec fn cabinet_named(all: Map<Seq<char>, CabinetModel>, name: Seq<char>) -> CabinetModel {
    if all.dom().contains(name) {
        all[name]
    } else {
        new_cabinet(name)
    }
}

fn open_cabinet(name: &str) -> (r: Cabinet)
    ensures
        r@ == new_cabinet(name@),
{
    let slots: Vec<IndexSlot> = Vec::new();
    let unique: Vec<String> = Vec::new();
    assert(slot_models(slots@) =~= Seq::empty());
    assert(texts(unique@) =~= Seq::<Seq<char>>::empty());
    let fresh = Drawer::open(name, "_id", unique, None, &slots, 0);
    let r = Cabinet { drawer: fresh.drawer, records: StoredRecords::new() };
    assert(stored(r.records) =~= Map::<u64, Json>::empty());
    r
}

/// What is found at a pointer: the record without its key.
pub open spec fn found_at(all: Map<Seq<char>, CabinetModel>, pointer: Seq<char>) -> Result<
    Option<Json>,
    Failure,
> {
    match pointer_parts(pointer) {
        None => Err(no_pointer(pointer)),
        Some((drawer, key)) => if !all.dom().contains(drawer) {
            Ok(None)
        } else {
            match record_of(all[drawer].drawer, all[drawer].records, key) {
                Some(record) => Ok(Some(without_id(record))),
                None => Ok(None),
            }
        },
    }
}

/// What reading the record at a pointer leaves and gives: the drawers then, and the reading; none
/// where there is no such record.
pub open spec fn read_at_pointer(
    all: Map<Seq<char>, CabinetModel>,
    pointer: Seq<char>,
    writes: Map<u64, MigrationWrite>,
) -> (Map<Seq<char>, CabinetModel>, Result<Option<MigratedModel>, Failure>) {
    match pointer_parts(pointer) {
        None => (all, Err(no_pointer(pointer))),
        Some((name, key)) => if !all.dom().contains(name) {
            (all, Ok(None))
        } else {
            match offset_of(all[name].drawer, key) {
                None => (all, Ok(None)),
                Some(offset) => match read_at(
                    all[name].drawer,
                    all[name].records,
                    offset,
                    writes[offset],
                ) {
                    Err(f) => (all, Err(f)),
                    Ok(read) => (
                        all.insert(
                            name,
                            CabinetModel { drawer: read.drawer, records: read.records },
                        ),
                        Ok(Some(read)),
                    ),
                },
            }
        },
    }
}

/// Whether it is known of each record of the drawer that a pointer names where it can go if it is
/// stored anew.
pub open spec fn can_store_at(
    drawers: Map<Seq<char>, Cabinet>,
    pointer: Seq<char>,
    writes: MigrationWrites,
) -> bool {
    pointer_parts(pointer) matches Some((name, _)) ==> drawers.dom().contains(name) ==> can_store(
        drawers[name].drawer@,
        drawers[name].records,
        writes,
    )
}

/// Whether all drawers but the one that a pointer names are as they were.
pub open spec fn others_kept(
    before: Map<Seq<char>, Cabinet>,
    after: Map<Seq<char>, Cabinet>,
    pointer: Seq<char>,
) -> bool {
    &&& after.dom() == before.dom()
    &&& forall|k: Seq<char>| #[trigger]
        after.dom().contains(k) && !(pointer_parts(pointer) matches Some((name, _)) && name == k)
            ==> after[k] == before[k]
}

/// A reading of a record without its key.
pub open spec fn without_key(read: MigratedModel) -> MigratedModel {
    MigratedModel {
        record: match read.record {
            Some(record) => Some(without_id(record)),
            None => None,
        },
        ..read
    }
}

/// Whether this is what a reading at a pointer gave: a record without its key, or nothing.
pub open spec fn is_pointer_reading(wanted: Option<MigratedModel>, read: Migrated) -> bool {
    match wanted {
        Some(model) => is_reading(without_key(model), read),
        None => read.record is None && read.effects is None && read.freed is None,
    }
}

/// Reads the record at a pointer, without its key, and stores it anew where it is out of date.
pub fn find_by_id_in_database(
    drawers: &mut TextMap<Cabinet>,
    pointer: &str,
    writes: &MigrationWrites,
) -> (r: Result<Migrated, Error>)
    requires
        can_store_at(old(drawers)@, pointer@, *writes),
    ensures
        ({
            let (after, wanted) = read_at_pointer(cabinets(*old(drawers)), pointer@, writes@);
            &&& cabinets(*final(drawers)) == after
            &&& match (wanted, r) {
                (Ok(model), Ok(read)) => is_pointer_reading(model, read),
                (Err(f), Err(e)) => e@ == f,
                _ => false,
            }
        }),
        can_store_at(final(drawers)@, pointer@, *writes),
        others_kept(old(drawers)@, final(drawers)@, pointer@),
{
    let ghost before = drawers@;
    let ghost all = cabinets(*drawers);
    let (drawer_name, key) = match parse_pointer(pointer) {
        Ok(parts) => parts,
        Err(e) => {
            return Err(e);
        },
    };
    let ghost name = drawer_name@;
    let mut cabinet = match drawers.remove(drawer_name.as_str()) {
        Some(cabinet) => cabinet,
        None => {
            assert(drawers@ =~= before);
            return Ok(Migrated { record: None, effects: None, freed: None });
        },
    };
    assert(all[name] == cabinet@);
    let read: Result<Migrated, Error> = match cabinet.drawer.find_offset(key.as_str()) {
        None => Ok(Migrated { record: None, effects: None, freed: None }),
        Some(offset) => cabinet.read_at_offset(offset, writes),
    };
    let ghost after = cabinet;
    drawers.insert(drawer_name, cabinet);
    proof {
        assert(drawers@ =~= before.insert(name, after));
        assert(drawers@.dom() =~= before.dom());
        assert(cabinets(*drawers) =~= all.insert(name, after@));
        assert(cabinets(*drawers) =~= read_at_pointer(all, pointer@, writes@).0);
    }
    match read {
        Ok(Migrated { record, effects, freed }) => {
            let record: Option<JsonValue> = match record {
                Some(record) => Some(strip_record_id(record)),
                None => None,
            };
            Ok(Migrated { record, effects, freed })
        },
        Err(e) => Err(e),
    }
}

impl Cabinet {
    /// Reads the record at an offset, and stores it anew where it is out of date.
    fn read_at_offset(&mut self, offset: u64, writes: &MigrationWrites) -> (r: Result<
        Migrated,
        Error,
    >)
        requires
            can_store(old(self).drawer@, old(self).records, *writes),
        ensures
            is_read(
                read_at(
                    old(self).drawer@,
                    stored(old(self).records),
                    offset,
                    writes@[offset],
                ),
                (old(self).drawer@, stored(old(self).records)),
                (final(self).drawer@, stored(final(self).records)),
                r,
            ),
            can_store(final(self).drawer@, final(self).records, *writes),
    {
        let ghost held = self.records@.dom();
        let ghost m = self.drawer@;
        assert(stored(self.records).dom() =~= held);
        let write: Option<&MigrationWrite> = if self.drawer.needs_format_migration() {
            writes.get(offset)
        } else {
            None
        };
        let read: Result<Migrated, Error> = match write {
            Some(write) => self.drawer.read_record_at_offset_with_lazy_migration(
                &mut self.records,
                offset,
                write,
            ),
            None => match self.records.get(offset) {
                Some(record) => Ok(
                    Migrated { record: Some(record.clone()), effects: None, freed: None },
                ),
                None => Ok(Migrated { record: None, effects: None, freed: None }),
            },
        };
        assert(stored(self.records).dom() =~= self.records@.dom());
        read
    }
}

/// A record of a drawer in the present format is read at its pointer as it is, and nothing
/// changes.
pub proof fn law_present_record_is_only_read(
    all: Map<Seq<char>, CabinetModel>,
    pointer: Seq<char>,
    writes: Map<u64, MigrationWrite>,
)
    requires
        pointer_parts(pointer) matches Some((name, _)) ==> all.dom().contains(name)
            ==> !is_outdated(all[name].drawer.format_version),
    ensures
        ({
            let (after, read) = read_at_pointer(all, pointer, writes);
            &&& after == all
            &&& found_at(all, pointer) == match read {
                Ok(Some(model)) => Ok::<Option<Json>, Failure>(without_key(model).record),
                Ok(None) => Ok::<Option<Json>, Failure>(None),
                Err(f) => Err::<Option<Json>, Failure>(f),
            }
        }),
{
    assert(read_at_pointer(all, pointer, writes).0 =~= all) by {
        match pointer_parts(pointer) {
            Some((name, key)) => {
                if all.dom().contains(name) && offset_of(all[name].drawer, key) is Some {
                    assert(CabinetModel {
                        drawer: all[name].drawer,
                        records: all[name].records,
                    } == all[name]);
                }
            },
            None => {},
        }
    }
}

/// Where the bytes of a record go.
pub struct RecordPlace {
    pub offset: u64,
    pub block: DataBlockIndexEntry,
    /// The length of the data file.
    pub file_len: u64,
    /// The bytes of the record that is replaced, where there is one.
    pub old_payload: Option<Vec<u8>>,
}

/// The record to write for a prepared record at a place.
pub open spec fn write_of(p: PreparedModel, place: RecordPlace) -> WriteModel {
    WriteModel {
        record: Json::Object(p.fields.insert("_id"@, Json::Text(p.key))),
        offset: place.offset,
        block: place.block,
        file_len: place.file_len,
        old_payload: match place.old_payload {
            Some(bytes) => Some(bytes@),
            None => None,
        },
    }
}

/// Why a record is refused.
pub open spec fn record_refusal(
    cabinet: CabinetModel,
    record: Json,
    numeric: Option<Seq<char>>,
) -> Option<Seq<char>> {
    first_problem(
        numeric,
        upsert_check(cabinet.drawer, live_records(cabinet.drawer, cabinet.records), record),
    )
}

/// The open drawers once a record was written. Its drawer is open then, though the record be
/// refused.
pub open spec fn with_record(
    all: Map<Seq<char>, CabinetModel>,
    name: Seq<char>,
    w: WriteModel,
    numeric: Option<Seq<char>>,
) -> Map<Seq<char>, CabinetModel> {
    let cabinet = cabinet_named(all, name);
    match record_refusal(cabinet, w.record, numeric) {
        Some(_) => all.insert(name, cabinet),
        None => {
            let key = w.record.get_text(cabinet.drawer.primary_key)->0;
            let after = written(cabinet.drawer, cabinet.records, key, w);
            all.insert(name, CabinetModel { drawer: after.0, records: after.1 })
        },
    }
}

/// Writes a prepared record into its drawer, which is opened where it is not. The comparisons of
/// numbers that the check of the record asks for are made before, and what they find is given.
pub fn upsert_in_database_unlogged(
    drawers: &mut TextMap<Cabinet>,
    physical_drawer_name: &str,
    prepared: PreparedRecord,
    place: RecordPlace,
    numeric_problem: Option<String>,
) -> (r: Result<(String, Upserted), Error>)
    requires
        cabinet_named(cabinets(*old(drawers)), physical_drawer_name@).drawer.record_count
            < usize::MAX,
    ensures
        ({
            let all = cabinets(*old(drawers));
            let name = physical_drawer_name@;
            let cabinet = cabinet_named(all, name);
            let w = write_of(prepared@, place);
            let numeric = opt_text(numeric_problem);
            &&& cabinets(*final(drawers)) == with_record(all, name, w, numeric)
            &&& match (record_refusal(cabinet, w.record, numeric), r) {
                (Some(problem), Err(e)) => e@ == bad_data(problem),
                (None, Ok((pointer, done))) => {
                    let key = w.record.get_text(cabinet.drawer.primary_key)->0;
                    &&& pointer@ == prepared@.pointer
                    &&& done.is_new == (offset_of(cabinet.drawer, key) is None)
                    &&& done.effects@ == write_effects(cabinet.drawer, cabinet.records, key, w)
                },
                _ => false,
            }
        }),
{
    let ghost all = cabinets(*drawers);
    let ghost name = physical_drawer_name@;
    let ghost w = write_of(prepared@, place);
    let mut cabinet = match drawers.remove(physical_drawer_name) {
        Some(cabinet) => cabinet,
        None => open_cabinet(physical_drawer_name),
    };
    assert(cabinet@ == cabinet_named(all, name));
    let record = full_record(prepared.record_key.as_str(), prepared.fields);
    let write = RecordWrite {
        record,
        offset: place.offset,
        block: place.block,
        file_len: place.file_len,
        old_payload: place.old_payload,
    };
    assert(write@ == w);
    let outcome = cabinet.drawer.upsert_record(&mut cabinet.records, write, numeric_problem);
    let ghost after = cabinet@;
    drawers.insert(owned(physical_drawer_name), cabinet);
    proof {
        assert(cabinets(*drawers) =~= all.insert(name, after));
    }
    match outcome {
        Ok(done) => Ok((prepared.pointer, done)),
        Err(problem) => Err(Error::invalid_data(problem)),
    }
}

/// The records to write for a batch of prepared records at their places.
pub open spec fn writes_of(batch: Seq<(PreparedRecord, RecordPlace)>) -> Seq<WriteModel> {
    Seq::new(batch.len(), |i: int| write_of(batch[i].0@, batch[i].1))
}

/// The pointers of a batch of prepared records.
pub open spec fn pointers_of(batch: Seq<(PreparedRecord, RecordPlace)>) -> Seq<Seq<char>> {
    Seq::new(batch.len(), |i: int| batch[i].0@.pointer)
}

fn take_apart(batch: Vec<(PreparedRecord, RecordPlace)>) -> (r: (Vec<String>, Vec<RecordWrite>))
    ensures
        texts(r.0@) == pointers_of(batch@),
        write_models(r.1@) == writes_of(batch@),
{
    let mut pointers: Vec<String> = Vec::new();
    let mut writes: Vec<RecordWrite> = Vec::new();
    let ghost all = batch@;
    let mut rest = batch;
    let ghost mut at: int = 0;
    while rest.len() > 0
        invariant
            0 <= at <= all.len(),
            rest@ == all.subrange(at, all.len() as int),
            pointers@.len() == at,
            writes@.len() == at,
            forall|k: int| 0 <= k < at ==> (#[trigger] pointers@[k])@ == all[k].0@.pointer,
            forall|k: int| 0 <= k < at ==> (#[trigger] writes@[k])@ == write_of(all[k].0@, all[k].1),
        decreases rest@.len(),
    {
        let ghost left = rest@;
        let (prepared, place) = rest.remove(0);
        assert(left[0] == all[at]);
        let ghost w = write_of(prepared@, place);
        let record = full_record(prepared.record_key.as_str(), prepared.fields);
        let write = RecordWrite {
            record,
            offset: place.offset,
            block: place.block,
            file_len: place.file_len,
            old_payload: place.old_payload,
        };
        assert(write@ == w);
        pointers.push(prepared.pointer);
        writes.push(write);
        proof {
            assert(rest@ =~= all.subrange(at + 1, all.len() as int));
            at = at + 1;
        }
    }
    assert(texts(pointers@) =~= pointers_of(all));
    assert(write_models(writes@) =~= writes_of(all));
    (pointers, writes)
}

/// The drawer once a batch was written, as far as it was.
pub open spec fn after_batch(done: BatchModel) -> CabinetModel {
    CabinetModel {
        drawer: if done.problem is None {
            DrawerModel { metadata_dirty: false, ..done.drawer }
        } else {
            done.drawer
        },
        records: done.records,
    }
}

/// A batch that was written, as far as it was: what has to be done on disk for each record, and,
/// where all were written, their pointers and the metadata that has to be written.
pub struct BulkUpserted {
    pub effects: Vec<DrawerEffects>,
    pub outcome: Result<(Vec<String>, Option<DrawerMetadata>), Error>,
}

/// Writes a batch of prepared records into their drawer, which is opened where it is not; none of
/// them where the batch is refused as a whole.
pub fn bulk_upsert_in_database_unlogged(
    drawers: &mut TextMap<Cabinet>,
    physical_drawer_name: &str,
    batch: Vec<(PreparedRecord, RecordPlace)>,
    numeric_problem: Option<String>,
) -> (r: BulkUpserted)
    requires
        cabinet_named(cabinets(*old(drawers)), physical_drawer_name@).drawer.record_count
            + batch@.len() <= usize::MAX,
    ensures
        ({
            let all = cabinets(*old(drawers));
            let name = physical_drawer_name@;
            let cabinet = cabinet_named(all, name);
            let done = batch_written(
                cabinet.drawer,
                cabinet.records,
                writes_of(batch@),
                opt_text(numeric_problem),
            );
            &&& cabinets(*final(drawers)) == all.insert(name, after_batch(done))
            &&& effects_models(r.effects@) == done.effects
            &&& match (done.problem, r.outcome) {
                (Some(problem), Err(e)) => e@ == bad_data(problem),
                (None, Ok((pointers, metadata))) => {
                    &&& texts(pointers@) == pointers_of(batch@)
                    &&& match metadata {
                        Some(given) => done.drawer.metadata_dirty && given@ == metadata_of(
                            done.drawer,
                        ),
                        None => !done.drawer.metadata_dirty,
                    }
                },
                _ => false,
            }
        }),
{
    let ghost all = cabinets(*drawers);
    let ghost name = physical_drawer_name@;
    let mut cabinet = match drawers.remove(physical_drawer_name) {
        Some(cabinet) => cabinet,
        None => open_cabinet(physical_drawer_name),
    };
    assert(cabinet@ == cabinet_named(all, name));
    let (pointers, writes) = take_apart(batch);
    assert(write_models(writes@).len() == writes@.len());
    let done = cabinet.drawer.upsert_records_atomic(&mut cabinet.records, writes, numeric_problem);
    let ghost after = cabinet@;
    drawers.insert(owned(physical_drawer_name), cabinet);
    proof {
        assert(cabinets(*drawers) =~= all.insert(name, after));
    }
    let outcome: Result<(Vec<String>, Option<DrawerMetadata>), Error> = match done.outcome {
        Ok(metadata) => Ok((pointers, metadata)),
        Err(problem) => Err(Error::invalid_data(problem)),
    };
    BulkUpserted { effects: done.effects, outcome }
}

/// A batch that is refused as a whole leaves what is found at every pointer as it was.
pub proof fn law_refused_batch_writes_nothing(
    all: Map<Seq<char>, CabinetModel>,
    name: Seq<char>,
    batch: Seq<(PreparedRecord, RecordPlace)>,
    numeric: Option<Seq<char>>,
    pointer: Seq<char>,
)
    requires
        first_problem(
            numeric,
            batch_check(
                cabinet_named(all, name).drawer,
                live_records(cabinet_named(all, name).drawer, cabinet_named(all, name).records),
                batch_records(writes_of(batch)),
            ),
        ) is Some,
    ensures
        ({
            let cabinet = cabinet_named(all, name);
            let done = batch_written(cabinet.drawer, cabinet.records, writes_of(batch), numeric);
            found_at(all.insert(name, after_batch(done)), pointer) == found_at(all, pointer)
        }),
{
    let cabinet = cabinet_named(all, name);
    match pointer_parts(pointer) {
        Some((drawer, key)) => {
            if drawer == name && !all.dom().contains(name) {
                assert(offset_of(cabinet.drawer, key) is None);
            }
        },
        None => {},
    }
}

/// A record that was written is found at its pointer, with the fields it was given, and what is
/// found at every other pointer is as before. In a drawer of the present format it is read so. The
/// name of the drawer and the key can stand in a pointer, and the record goes where no other
/// record stands.
pub proof fn law_written_record_is_found_at_its_pointer(
    all: Map<Seq<char>, CabinetModel>,
    name: Seq<char>,
    p: PreparedModel,
    place: RecordPlace,
    numeric: Option<Seq<char>>,
)
    requires
        name.len() > 0,
        without_leading(name, '@') == name,
        !name.contains(':'),
        p.key.len() > 0,
        clean_token(p.key) == p.key,
        !p.key.contains(':'),
        !starts_with(p.key, "lnk_"@),
        p.pointer == pointer_text(name, p.key),
        cabinet_named(all, name).drawer.primary_key == "_id"@,
        apart(cabinet_named(all, name).drawer),
        free_for(cabinet_named(all, name).drawer, p.key, place.offset),
        record_refusal(cabinet_named(all, name), write_of(p, place).record, numeric) is None,
    ensures
        ({
            let after = with_record(all, name, write_of(p, place), numeric);
            &&& found_at(after, p.pointer) == Ok::<Option<Json>, Failure>(
                Some(Json::Object(p.fields.remove("_id"@))),
            )
            &&& forall|other: Seq<char>|
                pointer_parts(other) != pointer_parts(p.pointer) ==> #[trigger] found_at(
                    after,
                    other,
                ) == found_at(all, other)
            &&& !is_outdated(cabinet_named(all, name).drawer.format_version) ==> forall|
                writes: Map<u64, MigrationWrite>,
            | #[trigger]
                read_at_pointer(after, p.pointer, writes).1 matches Ok(Some(read)) && without_key(
                    read,
                ).record == Some(Json::Object(p.fields.remove("_id"@)))
        }),
{
    let cabinet = cabinet_named(all, name);
    let w = write_of(p, place);
    let after = with_record(all, name, w, numeric);
    law_pointer_round_trip(name, p.key);
    assert(w.record.get_text("_id"@) == Some(p.key));
    law_written_record_is_read(cabinet.drawer, cabinet.records, p.key, w);
    assert(p.fields.insert("_id"@, Json::Text(p.key)).remove("_id"@) =~= p.fields.remove("_id"@));
    assert forall|other: Seq<char>|
        pointer_parts(other) != pointer_parts(p.pointer) implies #[trigger] found_at(after, other)
        == found_at(all, other) by {
        match pointer_parts(other) {
            Some((drawer, key)) => {
                if drawer == name {
                    assert(key != p.key);
                    assert(record_of(after[name].drawer, after[name].records, key) == record_of(
                        cabinet.drawer,
                        cabinet.records,
                        key,
                    ));
                    if !all.dom().contains(name) {
                        assert(offset_of(cabinet.drawer, key) is None);
                    }
                }
            },
            None => {},
        }
    }
    if !is_outdated(cabinet.drawer.format_version) {
        assert forall|writes: Map<u64, MigrationWrite>| #[trigger]
            read_at_pointer(after, p.pointer, writes).1 matches Ok(Some(read)) && without_key(
                read,
            ).record == Some(Json::Object(p.fields.remove("_id"@))) by {
            law_present_record_is_only_read(after, p.pointer, writes);
        }
    }
}

/// What a count of the records of a drawer comes to: the count, or that every record has to be
/// held against the filter.
#[derive(Debug, Clone, Copy, PartialEq, Eq, Structural)]
pub enum CountStart {
    Counted(usize),
    Scan,
}

/// A count, and the changes to the index file that looking the filter up made.
pub struct Counting {
    pub changes: Vec<IndexChange>,
    pub persist: bool,
    pub outcome: Result<CountStart, Error>,
}

/// Counts the records of a drawer: none where it is not open; without a filter all of them; with
/// one that the indexes answer, as many as they list. Otherwise every record has to be looked at.
pub fn count_in_database(
    drawers: &mut TextMap<Cabinet>,
    physical_drawer_name: &str,
    slots: &IndexSlots,
    filter: Option<&TextMap<JsonValue>>,
) -> (r: Counting)
    ensures
        ({
            let all = cabinets(*old(drawers));
            let name = physical_drawer_name@;
            match (filter, all.dom().contains(name)) {
                (_, false) => {
                    &&& cabinets(*final(drawers)) == all
                    &&& r.outcome == Ok::<CountStart, Error>(CountStart::Counted(0))
                    &&& changes(r.changes@) == Seq::<ChangeModel>::empty()
                    &&& !r.persist
                },
                (None, true) => {
                    &&& cabinets(*final(drawers)) == all
                    &&& r.outcome == Ok::<CountStart, Error>(
                        CountStart::Counted(all[name].drawer.record_count),
                    )
                    &&& changes(r.changes@) == Seq::<ChangeModel>::empty()
                    &&& !r.persist
                },
                (Some(given), true) => {
                    let cabinet = all[name];
                    let wanted = json_fields(*given);
                    let l = readied(cabinet.drawer, slots@.dom(), cabinet.records, wanted);
                    &&& cabinets(*final(drawers)) == all.insert(
                        name,
                        CabinetModel { drawer: l.drawer, ..cabinet },
                    )
                    &&& changes(r.changes@) == l.changes
                    &&& r.persist == l.fresh
                    &&& match (l.stop, r.outcome) {
                        (Some(Some(f)), Err(e)) => e@ == f,
                        (Some(None), Ok(start)) => start == CountStart::Scan,
                        (None, Ok(CountStart::Scan)) => l.fresh || given@.dom() =~= Set::<
                            Seq<char>,
                        >::empty(),
                        (None, Ok(CountStart::Counted(n))) => !l.fresh && !(given@.dom() =~= Set::<
                            Seq<char>,
                        >::empty()) && exists|offsets: Seq<u64>| #[trigger]
                            are_candidates(l.drawer, wanted, offsets) && n == offsets.len(),
                        _ => false,
                    }
                },
            }
        }),
{
    let ghost all = cabinets(*drawers);
    let ghost name = physical_drawer_name@;
    let none: Vec<IndexChange> = Vec::new();
    assert(changes(none@) =~= Seq::<ChangeModel>::empty());
    let mut cabinet = match drawers.remove(physical_drawer_name) {
        Some(cabinet) => cabinet,
        None => {
            assert(cabinets(*drawers) =~= all);
            return Counting { changes: none, persist: false, outcome: Ok(CountStart::Counted(0)) };
        },
    };
    let ghost before = cabinet@;
    assert(all[name] == before);
    let counting = match filter {
        None => Counting {
            changes: none,
            persist: false,
            outcome: Ok(CountStart::Counted(cabinet.drawer.record_count())),
        },
        Some(given) => {
            let found = cabinet.drawer.indexed_candidate_offsets(&cabinet.records, slots, given);
            let outcome: Result<CountStart, Error> = match found.outcome {
                Ok(Some(offsets)) => {
                    let ghost listed = offsets@;
                    assert(are_candidates(cabinet.drawer@, json_fields(*given), listed));
                    Ok(CountStart::Counted(offsets.len()))
                },
                Ok(None) => Ok(CountStart::Scan),
                Err(e) => Err(e),
            };
            Counting { changes: found.changes, persist: found.persist, outcome }
        },
    };
    let ghost after = cabinet@;
    drawers.insert(owned(physical_drawer_name), cabinet);
    proof {
        assert(cabinets(*drawers) =~= all.insert(name, after));
        if filter is None {
            assert(all.insert(name, before) =~= all);
        }
    }
    counting
}

} // verus!
