//! Looking after the open drawers of a database: their records packed, brought into the present
//! format and read, and their rules changed.
use crate::database_execution::cabinets::{cabinets, Cabinet, CabinetModel};
use crate::drawer::contents::live_records;
use crate::drawer::indexing::{
    changes, readied, stored, ChangeModel, IndexChange, StoredRecords,
};
use crate::drawer::migration::{
    are_filtered, are_read, are_readings, can_store, present_format, read_all, MigrationReads,
    MigrationRun, MigrationWrites, SecondaryFound,
};
use crate::drawer::packing::packed_records;
use crate::drawer::replay::{is_outdated, IndexSlots};
use crate::drawer::rules::{rule_answer, rule_managed};
use crate::drawer::vacuum::{
    is_vacuumed, lemma_packed_prefix, live_models, packed, packed_offset, LiveModel, LiveRecord,
    VacuumPlan,
};
use crate::error::{failure, Error, ErrorKind, Failure};
use crate::fields::TextMap;
use crate::text::{concat3, owned};
use crate::value::{json_fields, jsons, Json, JsonValue};
use vstd::prelude::*;

verus! {

/// The failure of a drawer that is not there.
pub open spec fn no_such_drawer(name: Seq<char>) -> Failure {
    failure(ErrorKind::NotFound, "Drawer '"@ + name + "' was not found"@)
}

fn missing_drawer(name: &str) -> (r: Error)
    ensures
        r@ == no_such_drawer(name@),
{
    Error::new(ErrorKind::NotFound, concat3("Drawer '", name, "' was not found"))
}

/// Whether records can be packed: none is stored as no bytes, and the file is not too long.
pub open spec fn can_pack(live: Seq<LiveModel>) -> bool {
    &&& forall|i: int| 0 <= i < live.len() ==> (#[trigger] live[i]).payload.len() > 0
    &&& packed(live, live.len() as int).len() <= u64::MAX
}

/// The records of a data file in which they are packed.
fn packed_store(live: &Vec<LiveRecord>) -> (r: StoredRecords)
    requires
        can_pack(live_models(live@)),
    ensures
        stored(r) == packed_records(live_models(live@)),
{
    let ghost all = live_models(live@);
    let mut out = StoredRecords::new();
    let mut offset: u64 = 0;
    let mut i: usize = 0;
    while i < live.len()
        invariant
            all == live_models(live@),
            can_pack(all),
            i <= live@.len(),
            offset == packed(all, i as int).len(),
            forall|k: int|
                0 <= k < i ==> out@.dom().contains(#[trigger] packed_offset(all, k)) && out@[
                    packed_offset(all, k)
                ]@ == all[k].record,
            forall|o: u64| #[trigger]
                out@.dom().contains(o) ==> exists|k: int|
                    0 <= k < i && #[trigger] packed_offset(all, k) == o,
        decreases live@.len() - i,
    {
        assert(all[i as int] == live@[i as int]@);
        proof {
            lemma_packed_prefix(all, i as int, all.len() as int);
            assert forall|k: int| 0 <= k < i implies #[trigger] packed_offset(all, k) < offset by {
                lemma_packed_prefix(all, k, i as int);
                lemma_packed_prefix(all, k, all.len() as int);
                assert(all[k].payload.len() > 0);
            }
        }
        let ghost before = out@;
        out.insert(offset, live[i].record.clone());
        proof {
            assert(packed_offset(all, i as int) == offset);
            assert forall|o: u64| #[trigger] out@.dom().contains(o) implies exists|k: int|
                0 <= k < i + 1 && #[trigger] packed_offset(all, k) == o by {
                if before.dom().contains(o) {
                    let k = choose|k: int| 0 <= k < i && #[trigger] packed_offset(all, k) == o;
                    assert(packed_offset(all, k) == o);
                }
            }
            assert(packed(all, i + 1).len() == packed(all, i as int).len()
                + all[i as int].payload.len());
            if i + 1 < all.len() {
                lemma_packed_prefix(all, i + 1, all.len() as int);
            }
        }
        offset = offset + live[i].payload.len() as u64;
        i = i + 1;
    }
    proof {
        let wanted = packed_records(all);
        assert forall|o: u64| #[trigger] wanted.dom().contains(o) implies stored(out).dom().contains(
            o,
        ) && stored(out)[o] == wanted[o] by {
            let k = choose|k: int| 0 <= k < all.len() && #[trigger] packed_offset(all, k) == o;
            assert(out@.dom().contains(packed_offset(all, k)));
        }
        assert forall|o: u64| #[trigger] stored(out).dom().contains(o) implies wanted.dom().contains(
            o,
        ) by {
            assert(out@.dom().contains(o));
        }
        assert(stored(out) =~= wanted);
    }
    out
}

/// Packs the live records of a drawer, given in the order of their offsets.
pub fn vacuum_drawer_in_database(
    drawers: &mut TextMap<Cabinet>,
    drawer_name: &str,
    physical_drawer_name: &str,
    live: &Vec<LiveRecord>,
) -> (r: Result<VacuumPlan, Error>)
    requires
        can_pack(live_models(live@)),
    ensures
        ({
            let all = cabinets(*old(drawers));
            let name = physical_drawer_name@;
            let now = cabinets(*final(drawers));
            if !all.dom().contains(name) {
                &&& now == all
                &&& r matches Err(e) && e@ == no_such_drawer(drawer_name@)
            } else {
                &&& is_vacuumed(all[name].drawer, live_models(live@), now[name].drawer, r)
                &&& now == all.insert(
                    name,
                    CabinetModel {
                        drawer: now[name].drawer,
                        records: if r is Ok {
                            packed_records(live_models(live@))
                        } else {
                            all[name].records
                        },
                    },
                )
            }
        }),
{
    let ghost all = cabinets(*drawers);
    let ghost name = physical_drawer_name@;
    let mut cabinet = match drawers.remove(physical_drawer_name) {
        Some(cabinet) => cabinet,
        None => {
            assert(cabinets(*drawers) =~= all);
            return Err(missing_drawer(drawer_name));
        },
    };
    assert(all[name] == cabinet@);
    let done = cabinet.drawer.vacuum(live);
    if done.is_ok() {
        cabinet.records = packed_store(live);
    }
    let ghost after = cabinet@;
    drawers.insert(owned(physical_drawer_name), cabinet);
    assert(cabinets(*drawers) =~= all.insert(name, after));
    done
}

/// Brings a drawer into the present format, and packs its live records, which are given as they
/// are read by then.
pub fn migrate_drawer_in_database(
    drawers: &mut TextMap<Cabinet>,
    drawer_name: &str,
    physical_drawer_name: &str,
    writes: &MigrationWrites,
    live: &Vec<LiveRecord>,
) -> (r: MigrationRun)
    requires
        can_pack(live_models(live@)),
        old(drawers)@.dom().contains(physical_drawer_name@) ==> can_store(
            old(drawers)@[physical_drawer_name@].drawer@,
            old(drawers)@[physical_drawer_name@].records,
            *writes,
        ),
    ensures
        ({
            let all = cabinets(*old(drawers));
            let name = physical_drawer_name@;
            let now = cabinets(*final(drawers));
            if !all.dom().contains(name) {
                &&& now == all
                &&& r.reads@.len() == 0
                &&& r.outcome matches Err(e) && e@ == no_such_drawer(drawer_name@)
            } else {
                let read = read_all(all[name].drawer, all[name].records, writes@);
                &&& are_readings(read.reads, r.reads@)
                &&& match read.failure {
                    Some(f) => {
                        &&& r.outcome matches Err(e) && e@ == f
                        &&& now == all.insert(
                            name,
                            CabinetModel { drawer: read.drawer, records: read.records },
                        )
                    },
                    None => {
                        &&& is_vacuumed(
                            present_format(read.drawer),
                            live_models(live@),
                            now[name].drawer,
                            r.outcome,
                        )
                        &&& now == all.insert(
                            name,
                            CabinetModel {
                                drawer: now[name].drawer,
                                records: if r.outcome is Ok {
                                    packed_records(live_models(live@))
                                } else {
                                    read.records
                                },
                            },
                        )
                    },
                }
            }
        }),
{
    let ghost all = cabinets(*drawers);
    let ghost name = physical_drawer_name@;
    let mut cabinet = match drawers.remove(physical_drawer_name) {
        Some(cabinet) => cabinet,
        None => {
            assert(cabinets(*drawers) =~= all);
            return MigrationRun { reads: Vec::new(), outcome: Err(missing_drawer(drawer_name)) };
        },
    };
    assert(all[name] == cabinet@);
    let run = cabinet.drawer.migrate_all_records(&mut cabinet.records, writes, live);
    if run.outcome.is_ok() {
        cabinet.records = packed_store(live);
    }
    let ghost after = cabinet@;
    drawers.insert(owned(physical_drawer_name), cabinet);
    assert(cabinets(*drawers) =~= all.insert(name, after));
    run
}

/// The live records of a drawer, in the order of their offsets, before pointers in them are
/// followed; none where the drawer is not there. Those that are out of date are stored anew.
pub fn find_all_in_database(
    drawers: &mut TextMap<Cabinet>,
    physical_drawer_name: &str,
    writes: &MigrationWrites,
) -> (r: MigrationReads)
    requires
        old(drawers)@.dom().contains(physical_drawer_name@) ==> can_store(
            old(drawers)@[physical_drawer_name@].drawer@,
            old(drawers)@[physical_drawer_name@].records,
            *writes,
        ),
    ensures
        ({
            let all = cabinets(*old(drawers));
            let name = physical_drawer_name@;
            let now = cabinets(*final(drawers));
            if !all.dom().contains(name) {
                &&& now == all
                &&& r.reads@.len() == 0
                &&& r.outcome matches Ok(found) && jsons(found@) == Seq::<Json>::empty()
            } else if !is_outdated(all[name].drawer.format_version) {
                &&& now == all
                &&& r.reads@.len() == 0
                &&& r.outcome matches Ok(found) && jsons(found@) == live_records(
                    all[name].drawer,
                    all[name].records,
                )
            } else {
                let read = read_all(all[name].drawer, all[name].records, writes@);
                &&& are_read(read, (read.drawer, read.records), r)
                &&& now == all.insert(
                    name,
                    CabinetModel { drawer: read.drawer, records: read.records },
                )
            }
        }),
{
    let ghost all = cabinets(*drawers);
    let ghost name = physical_drawer_name@;
    let mut cabinet = match drawers.remove(physical_drawer_name) {
        Some(cabinet) => cabinet,
        None => {
            assert(cabinets(*drawers) =~= all);
            let none: Vec<JsonValue> = Vec::new();
            assert(jsons(none@) =~= Seq::<Json>::empty());
            return MigrationReads { reads: Vec::new(), outcome: Ok(none) };
        },
    };
    assert(all[name] == cabinet@);
    let found = cabinet.drawer.find_all_records_with_migration(&mut cabinet.records, writes);
    let ghost after = cabinet@;
    drawers.insert(owned(physical_drawer_name), cabinet);
    proof {
        assert(cabinets(*drawers) =~= all.insert(name, after));
        if !is_outdated(all[name].drawer.format_version) {
            assert(after == all[name]);
            assert(all.insert(name, after) =~= all);
        }
    }
    found
}

/// The records of a drawer that a filter may find, before pointers in them are followed; none
/// where the drawer is not there. Each has to be held against the filter.
pub fn records_for_filter_in_database(
    drawers: &mut TextMap<Cabinet>,
    physical_drawer_name: &str,
    slots: &IndexSlots,
    filter: &TextMap<JsonValue>,
    writes: &MigrationWrites,
) -> (r: SecondaryFound)
    requires
        old(drawers)@.dom().contains(physical_drawer_name@) ==> can_store(
            old(drawers)@[physical_drawer_name@].drawer@,
            old(drawers)@[physical_drawer_name@].records,
            *writes,
        ),
    ensures
        ({
            let all = cabinets(*old(drawers));
            let name = physical_drawer_name@;
            let now = cabinets(*final(drawers));
            if !all.dom().contains(name) {
                &&& now == all
                &&& changes(r.changes@) == Seq::<ChangeModel>::empty()
                &&& !r.persist
                &&& r.reads@.len() == 0
                &&& r.outcome matches Ok(found) && jsons(found@) == Seq::<Json>::empty()
            } else {
                let wanted = json_fields(*filter);
                &&& now == all.insert(name, now[name])
                &&& are_filtered(
                    readied(all[name].drawer, slots@.dom(), all[name].records, wanted),
                    all[name].records,
                    wanted,
                    writes@,
                    (now[name].drawer, now[name].records),
                    r,
                )
            }
        }),
{
    let ghost all = cabinets(*drawers);
    let ghost name = physical_drawer_name@;
    let mut cabinet = match drawers.remove(physical_drawer_name) {
        Some(cabinet) => cabinet,
        None => {
            assert(cabinets(*drawers) =~= all);
            let none: Vec<JsonValue> = Vec::new();
            let same: Vec<IndexChange> = Vec::new();
            assert(jsons(none@) =~= Seq::<Json>::empty());
            assert(changes(same@) =~= Seq::<ChangeModel>::empty());
            return SecondaryFound {
                changes: same,
                persist: false,
                reads: Vec::new(),
                outcome: Ok(none),
            };
        },
    };
    assert(all[name] == cabinet@);
    let found = cabinet.drawer.records_for_filter(&mut cabinet.records, slots, filter, writes);
    let ghost after = cabinet@;
    drawers.insert(owned(physical_drawer_name), cabinet);
    assert(cabinets(*drawers) =~= all.insert(name, after));
    found
}

/// The failure of a drawer whose rules cannot be changed because it is not there.
pub open spec fn no_schema_drawer(name: Seq<char>) -> Failure {
    failure(
        ErrorKind::NotFound,
        "Drawer '"@ + name + "' could not be loaded for schema management"@,
    )
}

/// Changes a rule of a drawer. The result is the answer, and the changes to the index file.
pub fn manage_schema_in_database(
    drawers: &mut TextMap<Cabinet>,
    drawer_name: &str,
    physical_drawer_name: &str,
    slots: &IndexSlots,
    action: &str,
    kind: &str,
    field_name: &str,
    payload: JsonValue,
) -> (r: Result<(JsonValue, Vec<IndexChange>), Error>)
    ensures
        ({
            let all = cabinets(*old(drawers));
            let name = physical_drawer_name@;
            let now = cabinets(*final(drawers));
            if !all.dom().contains(name) {
                &&& now == all
                &&& r matches Err(e) && e@ == no_schema_drawer(drawer_name@)
            } else {
                match (
                    rule_managed(
                        all[name].drawer,
                        all[name].records,
                        slots@.dom(),
                        action@,
                        kind@,
                        field_name@,
                        payload@,
                    ),
                    r,
                ) {
                    (Ok((after, made)), Ok((answer, listed))) => {
                        &&& now == all.insert(name, CabinetModel { drawer: after, ..all[name] })
                        &&& changes(listed@) == made
                        &&& answer@ == rule_answer(
                            all[name].drawer.name,
                            action@,
                            kind@,
                            field_name@,
                            payload@,
                        )
                    },
                    (Err(f), Err(e)) => e@ == f && now == all,
                    _ => false,
                }
            }
        }),
{
    let ghost all = cabinets(*drawers);
    let ghost name = physical_drawer_name@;
    let mut cabinet = match drawers.remove(physical_drawer_name) {
        Some(cabinet) => cabinet,
        None => {
            assert(cabinets(*drawers) =~= all);
            let e = Error::new(
                ErrorKind::NotFound,
                concat3("Drawer '", drawer_name, "' could not be loaded for schema management"),
            );
            return Err(e);
        },
    };
    assert(all[name] == cabinet@);
    let done = cabinet.drawer.manage_schema_rule(
        &cabinet.records,
        slots,
        action,
        kind,
        field_name,
        payload,
    );
    let ghost after = cabinet@;
    drawers.insert(owned(physical_drawer_name), cabinet);
    proof {
        assert(cabinets(*drawers) =~= all.insert(name, after));
        if done is Err {
            assert(all.insert(name, after) =~= all);
        }
    }
    done
}

} // verus!
