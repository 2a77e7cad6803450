//! What is prepared for a database, and what is picked out of its records.
use crate::catalog::registry::{entries_in, EntryModel};
use crate::database_execution::cabinets::{
    cabinet_named, record_refusal, with_record, write_of, CabinetModel, RecordPlace,
};
use crate::database_execution::{children_among, prepared, without_id, PreparedModel};
use crate::drawer::contents::WriteModel;
use crate::error::ErrorKind;
use crate::fields::{key_order, lemma_key_order_len};
use crate::pointer::{clean_token, law_pointer_round_trip, pointer_parts};
use crate::seed::{seeded, seeded_from};
use crate::text::{starts_with, without_leading};
use crate::value::Json;
use vstd::prelude::*;

verus! {

/// A record is prepared with all its fields and under the key that it gives, else under the one
/// that was made; what is no object is refused. The pointer to it leads to its drawer and key.
pub proof fn law_record_is_prepared_whole(drawer: Seq<char>, payload: Json, made: Seq<char>)
    ensures
        match prepared(drawer, payload, made) {
            Ok(p) => payload == Json::Object(p.fields) && p.key == (match payload.get("_id"@) {
                Some(Json::Text(id)) => clean_token(id),
                _ => made,
            }) && (without_leading(drawer, '@') == drawer && drawer.len() > 0 && !drawer.contains(
                ':',
            ) && clean_token(p.key) == p.key && p.key.len() > 0 && !p.key.contains(':')
                && !starts_with(p.key, "lnk_"@) ==> pointer_parts(p.pointer) == Some(
                (drawer, p.key),
            )),
            Err(f) => !(payload is Object) && f.kind == ErrorKind::InvalidInput,
        },
{
    match prepared(drawer, payload, made) {
        Ok(p) => {
            if without_leading(drawer, '@') == drawer && drawer.len() > 0 && !drawer.contains(':')
                && clean_token(p.key) == p.key && p.key.len() > 0 && !p.key.contains(':')
                && !starts_with(p.key, "lnk_"@) {
                law_pointer_round_trip(drawer, p.key);
            }
        },
        Err(_) => {},
    }
}

/// The record that is written holds its key under `_id` and every other field of the payload.
pub proof fn law_written_record_is_the_prepared_one(
    p: PreparedModel,
    place: RecordPlace,
    field: Seq<char>,
)
    ensures
        ({
            let w = write_of(p, place);
            &&& w.record.get("_id"@) == Some(Json::Text(p.key))
            &&& field != "_id"@ ==> w.record.get(field) == Json::Object(p.fields).get(field)
            &&& w.offset == place.offset
            &&& w.block == place.block
            &&& w.file_len == place.file_len
        }),
{
}

/// A record that is refused leaves the records of its drawer as they were, and no record that is
/// written touches another drawer.
pub proof fn law_record_goes_into_its_drawer_alone(
    all: Map<Seq<char>, CabinetModel>,
    name: Seq<char>,
    w: WriteModel,
    numeric: Option<Seq<char>>,
    other: Seq<char>,
)
    ensures
        ({
            let after = with_record(all, name, w, numeric);
            &&& after.dom().contains(name)
            &&& other != name ==> (after.dom().contains(other) <==> all.dom().contains(other)) && (
            all.dom().contains(other) ==> after[other] == all[other])
            &&& record_refusal(cabinet_named(all, name), w.record, numeric) is Some
                && all.dom().contains(name) ==> after[name] == all[name]
            &&& numeric is Some && all.dom().contains(name) ==> after[name] == all[name]
        }),
{
}

/// The children of a record are just those whose field points at it, in their order.
pub proof fn law_children_point_at_their_parent(
    records: Seq<Json>,
    mapped_by: Seq<char>,
    parent: Seq<char>,
    n: int,
    r: Json,
)
    requires
        0 <= n <= records.len(),
    ensures
        children_among(records, mapped_by, parent, n).contains(r) <==> records.take(n).contains(r)
            && r.get_text(mapped_by) == Some(parent),
        n < records.len() && records[n].get_text(mapped_by) == Some(parent) ==> children_among(
            records,
            mapped_by,
            parent,
            n + 1,
        ) == children_among(records, mapped_by, parent, n).push(records[n]),
    decreases n,
{
    let more = records.take(n);
    let all = children_among(records, mapped_by, parent, n);
    if n > 0 {
        law_children_point_at_their_parent(records, mapped_by, parent, n - 1, r);
        let before = children_among(records, mapped_by, parent, n - 1);
        let fewer = records.take(n - 1);
        assert(more =~= fewer.push(records[n - 1]));
        assert(more[n - 1] == records[n - 1]);
        if more.contains(r) {
            let i = choose|i: int| 0 <= i < more.len() && more[i] == r;
            if i < n - 1 {
                assert(fewer[i] == r);
            }
        }
        if fewer.contains(r) {
            let i = choose|i: int| 0 <= i < fewer.len() && fewer[i] == r;
            assert(more[i] == r);
        }
        if before.contains(r) {
            let i = choose|i: int| 0 <= i < before.len() && before[i] == r;
            assert(all[i] == r);
        }
        if all.contains(r) {
            let i = choose|i: int| 0 <= i < all.len() && all[i] == r;
            if i < before.len() {
                assert(before[i] == r);
            }
        }
        if records[n - 1].get_text(mapped_by) == Some(parent) {
            assert(all.last() == records[n - 1]);
        }
    }
}

/// A record that is given out without its key has every other field.
pub proof fn law_only_the_key_is_left_out(record: Json, field: Seq<char>)
    ensures
        without_id(record).get("_id"@) is None,
        field != "_id"@ ==> without_id(record).get(field) == record.get(field),
        !(record is Object) ==> without_id(record) == record,
{
}

/// The entries of a schema are just those that are registered in it, in their order.
pub proof fn law_entries_of_a_schema_are_found(
    entries: Seq<EntryModel>,
    database: Seq<char>,
    schema: Seq<char>,
    n: int,
    one: EntryModel,
)
    requires
        0 <= n <= entries.len(),
    ensures
        entries_in(entries, database, schema, n).contains(one) <==> entries.take(n).contains(one)
            && one.database == database && one.schema == schema,
        n < entries.len() && entries[n].database == database && entries[n].schema == schema
            ==> entries_in(entries, database, schema, n + 1) == entries_in(
            entries,
            database,
            schema,
            n,
        ).push(entries[n]),
    decreases n,
{
    let more = entries.take(n);
    let all = entries_in(entries, database, schema, n);
    if n > 0 {
        law_entries_of_a_schema_are_found(entries, database, schema, n - 1, one);
        let before = entries_in(entries, database, schema, n - 1);
        let fewer = entries.take(n - 1);
        assert(more =~= fewer.push(entries[n - 1]));
        assert(more[n - 1] == entries[n - 1]);
        if more.contains(one) {
            let i = choose|i: int| 0 <= i < more.len() && more[i] == one;
            if i < n - 1 {
                assert(fewer[i] == one);
            }
        }
        if fewer.contains(one) {
            let i = choose|i: int| 0 <= i < fewer.len() && fewer[i] == one;
            assert(more[i] == one);
        }
        if before.contains(one) {
            let i = choose|i: int| 0 <= i < before.len() && before[i] == one;
            assert(all[i] == one);
        }
        if all.contains(one) {
            let i = choose|i: int| 0 <= i < all.len() && all[i] == one;
            if i < before.len() {
                assert(before[i] == one);
            }
        }
        if entries[n - 1].database == database && entries[n - 1].schema == schema {
            assert(all.last() == entries[n - 1]);
        }
    }
}

/// Whether a seed lists a record in a drawer.
pub open spec fn lists(drawers: Map<Seq<char>, Json>, drawer: Seq<char>, record: Json) -> bool {
    drawers.dom().contains(drawer) && (drawers[drawer] matches Json::Array(items)
        && items.contains(record))
}

proof fn lemma_seeded(
    drawers: Map<Seq<char>, Json>,
    i: int,
    done: Seq<(Seq<char>, Json)>,
    drawer: Seq<char>,
    record: Json,
)
    requires
        drawers.dom().finite(),
        0 <= i <= key_order(drawers.dom()).len(),
        done.contains((drawer, record)) <==> lists(drawers, drawer, record) && key_order(
            drawers.dom(),
        ).take(i).contains(drawer),
    ensures
        match seeded_from(drawers, i, done).failure {
            None => seeded_from(drawers, i, done).records.contains((drawer, record)) <==> lists(
                drawers,
                drawer,
                record,
            ),
            Some(f) => f.kind == ErrorKind::InvalidData && (seeded_from(
                drawers,
                i,
                done,
            ).records.contains((drawer, record)) ==> lists(drawers, drawer, record)) && exists|
                d: Seq<char>,
            | #[trigger] drawers.dom().contains(d) && !(drawers[d] is Array),
        },
        seeded_from(drawers, i, done).failure is None ==> forall|j: int|
            i <= j < key_order(drawers.dom()).len() ==> drawers[#[trigger] key_order(
                drawers.dom(),
            )[j]] is Array,
    decreases key_order(drawers.dom()).len() - i,
{
    let names = key_order(drawers.dom());
    lemma_key_order_len(drawers.dom());
    if i < names.len() {
        let name = names[i];
        assert(drawers.dom().contains(name));
        match drawers[name] {
            Json::Array(items) => {
                let part = items.map_values(|record: Json| (name, record));
                let all = done + part;
                let fewer = names.take(i);
                let more = names.take(i + 1);
                assert(more =~= fewer.push(name));
                assert(more[i] == name);
                if more.contains(drawer) {
                    let k = choose|k: int| 0 <= k < more.len() && more[k] == drawer;
                    if k < i {
                        assert(fewer[k] == drawer);
                    }
                }
                if fewer.contains(drawer) {
                    let k = choose|k: int| 0 <= k < fewer.len() && fewer[k] == drawer;
                    assert(more[k] == drawer);
                }
                if items.contains(record) {
                    let k = choose|k: int| 0 <= k < items.len() && items[k] == record;
                    assert(part[k] == (name, record));
                    assert(all[done.len() + k] == (name, record));
                }
                if done.contains((drawer, record)) {
                    let k = choose|k: int| 0 <= k < done.len() && done[k] == (drawer, record);
                    assert(all[k] == (drawer, record));
                }
                if all.contains((drawer, record)) {
                    let k = choose|k: int| 0 <= k < all.len() && all[k] == (drawer, record);
                    if k < done.len() {
                        assert(done[k] == (drawer, record));
                    } else {
                        assert(part[k - done.len()] == (drawer, record));
                        assert(items[k - done.len()] == record);
                    }
                }
                lemma_seeded(drawers, i + 1, all, drawer, record);
            },
            _ => {},
        }
    } else {
        assert(names.take(i) =~= names);
        if drawers.dom().contains(drawer) {
            assert(names.contains(drawer));
        }
    }
}

/// A seed writes every record that it lists into the drawer under which it lists it, and no other
/// record. A drawer without a list is a failure, and what is no object is refused.
pub proof fn law_every_seed_record_is_written(seed: Json, drawer: Seq<char>, record: Json)
    requires
        seed matches Json::Object(drawers) ==> drawers.dom().finite(),
    ensures
        match seeded(seed) {
            Ok(plan) => seed matches Json::Object(drawers) && match plan.failure {
                None => plan.records.contains((drawer, record)) <==> lists(drawers, drawer, record),
                Some(f) => f.kind == ErrorKind::InvalidData && (plan.records.contains(
                    (drawer, record),
                ) ==> lists(drawers, drawer, record)) && exists|d: Seq<char>| #[trigger]
                    drawers.dom().contains(d) && !(drawers[d] is Array),
            },
            Err(f) => !(seed is Object) && f.kind == ErrorKind::InvalidData,
        },
{
    match seed {
        Json::Object(drawers) => {
            assert(key_order(drawers.dom()).take(0) =~= Seq::empty());
            lemma_seeded(drawers, 0, Seq::empty(), drawer, record);
        },
        _ => {},
    }
}

/// A drawer that is open is the one that is written to; one that is not is opened empty, under its
/// name, with the usual key and without rules.
pub proof fn law_new_drawers_are_empty(
    all: Map<Seq<char>, CabinetModel>,
    name: Seq<char>,
    key: Seq<char>,
    offset: u64,
)
    ensures
        all.dom().contains(name) ==> cabinet_named(all, name) == all[name],
        !all.dom().contains(name) ==> ({
            let new = cabinet_named(all, name);
            &&& new.drawer.name == name
            &&& new.drawer.primary_key == "_id"@
            &&& !new.drawer.primary.dom().contains(key)
            &&& !new.drawer.secondary.dom().contains(key)
            &&& !new.drawer.relationships.dom().contains(key)
            &&& !new.drawer.delete_rules.dom().contains(key)
            &&& !new.drawer.cascade.dom().contains(key)
            &&& new.drawer.unique.len() == 0
            &&& new.drawer.schema is None
            &&& !new.records.dom().contains(offset)
        }),
{
}

} // verus!
