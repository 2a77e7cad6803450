//! What a drawer reads once its records are packed.
use crate::drawer::contents::{live_records, live_set, record_of, records_at};
use crate::drawer::index::{field_at, offsets_at, record_key};
use crate::drawer::index_file::{entries_written, places_free, plain_fields, tells, IndexFile};
use crate::drawer::reading::{law_all_records_are_read_by_key, lemma_live_offsets};
use crate::drawer::records::{offset_of, value_log};
use crate::drawer::reopening::{
    is_sound, lemma_key_written, lemma_same_told, lemma_value_written, listed, DrawerState,
};
use crate::drawer::vacuum::{
    all_keyed, lemma_packed_prefix, lemma_packed_primary, packed, packed_offset, packing,
    packing_start, record_added, secondary_logs, vacuumed, value_added, LiveModel,
};
use crate::drawer::{DrawerModel, LogModel};
use crate::fields::{key_order, keys_ascend, lemma_key_order_len};
use crate::offsets::offset_order;
use crate::text::{lemma_before_irreflexive, text_before};
use crate::value::Json;
use vstd::prelude::*;

verus! {

/// The records of the data file once they are packed, by their offsets.
pub open spec fn packed_records(live: Seq<LiveModel>) -> Map<u64, Json> {
    Map::new(
        |o: u64| exists|i: int| 0 <= i < live.len() && #[trigger] packed_offset(live, i) == o,
        |o: u64|
            live[choose|i: int| 0 <= i < live.len() && #[trigger] packed_offset(live, i) == o].record,
    )
}

/// Whether the records to pack are the live records of a drawer, in the order of their offsets.
pub open spec fn packs_live_records(
    m: DrawerModel,
    records: Map<u64, Json>,
    live: Seq<LiveModel>,
) -> bool {
    live.map_values(|l: LiveModel| l.record) == live_records(m, records)
}

/// Whether each record that a drawer reads under a key has that key.
pub open spec fn keys_agree(m: DrawerModel, records: Map<u64, Json>) -> bool {
    forall|k: Seq<char>|
        (#[trigger] record_of(m, records, k)) is Some ==> record_of(m, records, k)->0.get_text(
            m.primary_key,
        ) == Some(k)
}

/// Each of the records that are read comes from an offset of its own.
proof fn lemma_source(records: Map<u64, Json>, offsets: Seq<u64>, n: int, a: int)
    requires
        0 <= n <= offsets.len(),
        0 <= a < records_at(records, offsets, n).len(),
    ensures
        exists|j: int|
            0 <= j < n && records.dom().contains(#[trigger] offsets[j]) && records[offsets[j]]
                == records_at(records, offsets, n)[a] && records_at(records, offsets, j).len() == a,
    decreases n,
{
    if n > 0 {
        let before = records_at(records, offsets, n - 1);
        if a < before.len() {
            lemma_source(records, offsets, n - 1, a);
            let j = choose|j: int|
                0 <= j < n - 1 && records.dom().contains(#[trigger] offsets[j])
                    && records[offsets[j]] == before[a] && records_at(records, offsets, j).len()
                    == a;
            assert(records.dom().contains(offsets[j]));
        } else {
            assert(records.dom().contains(offsets[n - 1]));
        }
    }
}

/// No two records to pack have the same key.
proof fn lemma_keys_differ(m: DrawerModel, records: Map<u64, Json>, live: Seq<LiveModel>, a: int, b: int)
    requires
        m.primary.dom().finite(),
        packs_live_records(m, records, live),
        keys_agree(m, records),
        0 <= a < b < live.len(),
    ensures
        live[a].record.get_text(m.primary_key) != live[b].record.get_text(m.primary_key),
{
    lemma_live_offsets(m);
    let offsets = offset_order(live_set(m));
    let n = offsets.len() as int;
    let all = live_records(m, records);
    assert(live.map_values(|l: LiveModel| l.record)[a] == live[a].record);
    assert(live.map_values(|l: LiveModel| l.record)[b] == live[b].record);
    lemma_source(records, offsets, n, a);
    lemma_source(records, offsets, n, b);
    let i = choose|j: int|
        0 <= j < n && records.dom().contains(#[trigger] offsets[j]) && records[offsets[j]] == all[a]
            && records_at(records, offsets, j).len() == a;
    let j = choose|j: int|
        0 <= j < n && records.dom().contains(#[trigger] offsets[j]) && records[offsets[j]] == all[b]
            && records_at(records, offsets, j).len() == b;
    assert(i != j);
    assert(offsets.contains(offsets[i]) && offsets.contains(offsets[j]));
    assert(live_set(m).contains(offsets[i]) && live_set(m).contains(offsets[j]));
    let k = choose|k: Seq<char>| #[trigger] offset_of(m, k) == Some(offsets[i]);
    let l = choose|k: Seq<char>| #[trigger] offset_of(m, k) == Some(offsets[j]);
    assert(record_of(m, records, k) == Some(all[a]));
    assert(record_of(m, records, l) == Some(all[b]));
    assert(offsets[i] != offsets[j]);
}

/// Every key that the packed drawer knows is that of a record to pack.
proof fn lemma_packed_keys(m: DrawerModel, live: Seq<LiveModel>, n: int, key: Seq<char>)
    requires
        all_keyed(m.primary_key, live),
        0 <= n <= live.len(),
        packing(m.primary_key, m.unique, live, n).primary.dom().contains(key),
    ensures
        exists|i: int|
            0 <= i < n && (#[trigger] live[i]).record.get_text(m.primary_key) == Some(key),
    decreases n,
{
    if n > 0 {
        let own = live[n - 1].record.get_text(m.primary_key);
        assert(own is Some);
        if own != Some(key) {
            lemma_packed_keys(m, live, n - 1, key);
        }
    }
}

/// Compaction keeps every record: where the records to pack are the live records of a drawer,
/// the packed drawer reads under each key what the drawer read before.
pub proof fn law_vacuum_keeps_every_record(
    m: DrawerModel,
    records: Map<u64, Json>,
    live: Seq<LiveModel>,
    key: Seq<char>,
)
    requires
        m.primary.dom().finite(),
        packs_live_records(m, records, live),
        keys_agree(m, records),
        forall|i: int| 0 <= i < live.len() ==> (#[trigger] live[i]).payload.len() > 0,
        packed(live, live.len() as int).len() <= u64::MAX,
    ensures
        all_keyed(m.primary_key, live),
        record_of(
            vacuumed(m, packing(m.primary_key, m.unique, live, live.len() as int)),
            packed_records(live),
            key,
        ) == record_of(m, records, key),
{
    let n = live.len() as int;
    let after = vacuumed(m, packing(m.primary_key, m.unique, live, n));
    let all = live_records(m, records);
    assert forall|i: int| 0 <= i < n implies exists|k: Seq<char>| #[trigger]
        record_of(m, records, k) == Some((#[trigger] live[i]).record) by {
        assert(live.map_values(|l: LiveModel| l.record)[i] == live[i].record);
        assert(all.contains(all[i]));
        law_all_records_are_read_by_key(m, records, all[i]);
    }
    assert forall|i: int| 0 <= i < n implies (#[trigger] live[i]).record.get_text(
        m.primary_key,
    ) is Some by {
        let k = choose|k: Seq<char>| #[trigger] record_of(m, records, k) == Some(live[i].record);
        assert(record_of(m, records, k) is Some);
    }
    assert forall|a: int, b: int| 0 <= a < b < n implies (#[trigger] live[a]).record.get_text(
        m.primary_key,
    ) != (#[trigger] live[b]).record.get_text(m.primary_key) by {
        lemma_keys_differ(m, records, live, a, b);
    }
    if after.primary.dom().contains(key) {
        lemma_packed_keys(m, live, n, key);
        let i = choose|i: int|
            0 <= i < n && (#[trigger] live[i]).record.get_text(m.primary_key) == Some(key);
        let k = choose|k: Seq<char>| #[trigger] record_of(m, records, k) == Some(live[i].record);
        assert(record_of(m, records, k) is Some);
        assert(k == key);
        lemma_packed_primary(m.primary_key, m.unique, live, i, n);
        let offset = packed_offset(live, i);
        assert(packed_records(live).dom().contains(offset));
        let j = choose|j: int| 0 <= j < n && #[trigger] packed_offset(live, j) == offset;
        lemma_packed_prefix(live, i, n);
        lemma_packed_prefix(live, j, n);
        if i < j {
            lemma_packed_prefix(live, i, j);
        } else if j < i {
            lemma_packed_prefix(live, j, i);
        }
        assert(i == j);
    } else if record_of(m, records, key) is Some {
        let r = record_of(m, records, key)->0;
        law_all_records_are_read_by_key(m, records, r);
        assert(all.contains(r));
        let i = choose|i: int| 0 <= i < all.len() && all[i] == r;
        assert(live.map_values(|l: LiveModel| l.record)[i] == live[i].record);
        lemma_packed_primary(m.primary_key, m.unique, live, i, n);
    }
}

/// Whether the indexes are those of the unique fields, and each lists records for each of its
/// finitely many values.
spec fn well_listed(
    secondary: Map<Seq<char>, Map<Seq<char>, Seq<u64>>>,
    unique: Seq<Seq<char>>,
) -> bool {
    &&& forall|f: Seq<char>| #[trigger] secondary.dom().contains(f) <==> unique.contains(f)
    &&& forall|f: Seq<char>| #[trigger]
        secondary.dom().contains(f) ==> secondary[f].dom().finite()
    &&& forall|f: Seq<char>, v: Seq<char>|
        secondary.dom().contains(f) && #[trigger] secondary[f].dom().contains(v)
            ==> secondary[f][v].len() > 0
}

proof fn lemma_record_listed(
    secondary: Map<Seq<char>, Map<Seq<char>, Seq<u64>>>,
    unique: Seq<Seq<char>>,
    record: Json,
    offset: u64,
    n: int,
)
    requires
        well_listed(secondary, unique),
        0 <= n <= unique.len(),
    ensures
        well_listed(record_added(secondary, unique, record, offset, n), unique),
    decreases n,
{
    if n > 0 {
        lemma_record_listed(secondary, unique, record, offset, n - 1);
        let before = record_added(secondary, unique, record, offset, n - 1);
        let after = record_added(secondary, unique, record, offset, n);
        let field = unique[n - 1];
        assert(unique.contains(field));
        assert(before.dom().contains(field));
        match record_key(record, field) {
            Some(value) => {
                let index = value_added(before[field], value, offset);
                assert(index.dom() =~= before[field].dom().insert(value));
                assert(after == before.insert(field, index));
                assert forall|f: Seq<char>, v: Seq<char>|
                    after.dom().contains(f) && #[trigger] after[f].dom().contains(
                        v,
                    ) implies after[f][v].len() > 0 by {
                    if !(f == field && v == value) {
                        assert(before[f].dom().contains(v));
                    }
                }
            },
            None => {},
        }
    }
}

proof fn lemma_packing_listed(primary_key: Seq<char>, unique: Seq<Seq<char>>, live: Seq<LiveModel>, n: int)
    requires
        0 <= n <= live.len(),
    ensures
        well_listed(packing(primary_key, unique, live, n).secondary, unique),
        packing(primary_key, unique, live, n).index_logs.len() == n,
    decreases n,
{
    if n > 0 {
        lemma_packing_listed(primary_key, unique, live, n - 1);
        let before = packing(primary_key, unique, live, n - 1);
        lemma_record_listed(
            before.secondary,
            unique,
            live[n - 1].record,
            before.data.len() as u64,
            unique.len() as int,
        );
    }
}

proof fn lemma_packing_logs(
    primary_key: Seq<char>,
    unique: Seq<Seq<char>>,
    live: Seq<LiveModel>,
    n: int,
    total: int,
)
    requires
        0 < n <= total <= live.len(),
    ensures
        packing(primary_key, unique, live, total).index_logs[n - 1] == packing(
            primary_key,
            unique,
            live,
            n,
        ).index_logs[n - 1],
    decreases total,
{
    if n < total {
        lemma_packing_logs(primary_key, unique, live, n, total - 1);
        lemma_packing_listed(primary_key, unique, live, total - 1);
    }
}

/// An index file without entries.
pub open spec fn empty_file() -> IndexFile {
    IndexFile { entries: Map::empty(), slots: Map::empty() }
}

/// The drawer once the entries of the first `n` records are written, and those of none of its
/// unique values.
spec fn keys_told(m: DrawerModel, live: Seq<LiveModel>, n: int) -> DrawerModel {
    DrawerModel {
        primary: packing(m.primary_key, m.unique, live, n).primary,
        secondary: packing_start(m.unique).secondary,
        ..m
    }
}

proof fn lemma_keys_told(
    m: DrawerModel,
    live: Seq<LiveModel>,
    logs: Seq<LogModel>,
    places: Seq<(u64, usize)>,
    n: int,
)
    requires
        plain_fields(m),
        places_free(empty_file(), logs, places),
        0 <= n <= live.len() <= logs.len(),
        forall|i: int|
            0 <= i < live.len() ==> #[trigger] logs[i] == packing(
                m.primary_key,
                m.unique,
                live,
                live.len() as int,
            ).index_logs[i],
    ensures
        tells(entries_written(empty_file(), logs, places, n), keys_told(m, live, n)),
    decreases n,
{
    if n == 0 {
        assert forall|f: Seq<char>| #[trigger] m.unique.contains(f) implies field_at(
            keys_told(m, live, 0).secondary,
            f,
        ) == Map::<Seq<char>, Seq<u64>>::empty() by {}
    } else {
        lemma_keys_told(m, live, logs, places, n - 1);
        lemma_packing_listed(m.primary_key, m.unique, live, n - 1);
        lemma_packing_logs(m.primary_key, m.unique, live, n, live.len() as int);
        let before = entries_written(empty_file(), logs, places, n - 1);
        let p = packing(m.primary_key, m.unique, live, n - 1);
        let log = logs[n - 1];
        let key = live[n - 1].record.get_text(m.primary_key)->0;
        assert(log == packing(m.primary_key, m.unique, live, n).index_logs[n - 1]);
        assert(!before.entries.dom().contains(places[n - 1].0));
        lemma_key_written(
            before,
            keys_told(m, live, n - 1),
            key,
            log,
            p.data.len() as u64,
            places[n - 1],
        );
    }
}

/// The indexes of which the first `n` fields have all their values, and the next has the first
/// `i` of them.
spec fn partly_listed(
    secondary: Map<Seq<char>, Map<Seq<char>, Seq<u64>>>,
    n: int,
    i: int,
) -> Map<Seq<char>, Map<Seq<char>, Seq<u64>>> {
    let fields = key_order(secondary.dom());
    Map::new(
        |f: Seq<char>| secondary.dom().contains(f),
        |f: Seq<char>|
            if fields.take(n).contains(f) {
                secondary[f]
            } else if n < fields.len() && f == fields[n] {
                secondary[f].restrict(key_order(secondary[f].dom()).take(i).to_set())
            } else {
                Map::empty()
            },
    )
}

/// The entries of the values of the first fields stand before those of the others.
proof fn lemma_secondary_prefix(secondary: Map<Seq<char>, Map<Seq<char>, Seq<u64>>>, n: int, total: int)
    requires
        0 <= n <= total,
    ensures
        secondary_logs(secondary, n).len() <= secondary_logs(secondary, total).len(),
        forall|i: int|
            0 <= i < secondary_logs(secondary, n).len() ==> #[trigger] secondary_logs(
                secondary,
                total,
            )[i] == secondary_logs(secondary, n)[i],
    decreases total,
{
    if n < total {
        lemma_secondary_prefix(secondary, n, total - 1);
    }
}

proof fn lemma_values_told(
    m: DrawerModel,
    primary: Map<Seq<char>, u64>,
    secondary: Map<Seq<char>, Map<Seq<char>, Seq<u64>>>,
    logs: Seq<LogModel>,
    places: Seq<(u64, usize)>,
    count: int,
    n: int,
    i: int,
)
    requires
        plain_fields(m),
        well_listed(secondary, m.unique),
        places_free(empty_file(), logs, places),
        0 <= count,
        0 <= n <= key_order(secondary.dom()).len(),
        secondary.dom().finite(),
        n == key_order(secondary.dom()).len() ==> i == 0,
        n < key_order(secondary.dom()).len() ==> 0 <= i <= key_order(
            secondary[key_order(secondary.dom())[n]].dom(),
        ).len(),
        ({
            let all = secondary_logs(secondary, key_order(secondary.dom()).len() as int);
            &&& logs.len() == count + all.len()
            &&& forall|k: int| 0 <= k < all.len() ==> #[trigger] logs[count + k] == all[k]
        }),
        tells(
            entries_written(empty_file(), logs, places, count),
            (DrawerModel { primary, secondary: packing_start(m.unique).secondary, ..m }),
        ),
    ensures
        secondary_logs(secondary, n).len() + i <= secondary_logs(
            secondary,
            key_order(secondary.dom()).len() as int,
        ).len(),
        tells(
            entries_written(
                empty_file(),
                logs,
                places,
                count + secondary_logs(secondary, n).len() + i,
            ),
            (DrawerModel { primary, secondary: partly_listed(secondary, n, i), ..m }),
        ),
    decreases n, i,
{
    let fields = key_order(secondary.dom());
    let total = fields.len() as int;
    let all = secondary_logs(secondary, total);
    lemma_key_order_len(secondary.dom());
    lemma_secondary_prefix(secondary, n, total);
    if n < total {
        lemma_secondary_prefix(secondary, n + 1, total);
    }
    if i > 0 {
        lemma_values_told(m, primary, secondary, logs, places, count, n, i - 1);
        let field = fields[n];
        assert(fields.contains(field));
        let values = key_order(secondary[field].dom());
        let value = values[i - 1];
        let k = secondary_logs(secondary, n).len() + i - 1;
        assert(secondary_logs(secondary, n + 1)[k] == value_log(secondary, field, value));
        assert(all[k] == value_log(secondary, field, value));
        assert(logs[count + k] == all[k]);
        let before = entries_written(empty_file(), logs, places, count + k);
        let known = DrawerModel { primary, secondary: partly_listed(secondary, n, i - 1), ..m };
        assert(!before.entries.dom().contains(places[count + k].0));
        lemma_value_written(before, known, secondary, field, value, places[count + k]);
        lemma_one_more_value(secondary, m.unique, n, i);
    } else if n > 0 {
        let field = fields[n - 1];
        assert(fields.contains(field));
        let values = key_order(secondary[field].dom());
        lemma_values_told(
            m,
            primary,
            secondary,
            logs,
            places,
            count,
            n - 1,
            values.len() as int,
        );
        assert(secondary_logs(secondary, n).len() == secondary_logs(secondary, n - 1).len()
            + values.len());
        lemma_field_done(secondary, m.unique, n);
    } else {
        lemma_no_field(secondary, m.unique);
    }
}

proof fn lemma_one_more_value(
    secondary: Map<Seq<char>, Map<Seq<char>, Seq<u64>>>,
    unique: Seq<Seq<char>>,
    n: int,
    i: int,
)
    requires
        well_listed(secondary, unique),
        secondary.dom().finite(),
        0 <= n < key_order(secondary.dom()).len(),
        0 < i <= key_order(secondary[key_order(secondary.dom())[n]].dom()).len(),
    ensures
        ({
            let field = key_order(secondary.dom())[n];
            let value = key_order(secondary[field].dom())[i - 1];
            let before = partly_listed(secondary, n, i - 1);
            before.insert(
                field,
                listed(
                    field_at(before, field),
                    value,
                    offsets_at(field_at(secondary, field), value),
                ),
            ) == partly_listed(secondary, n, i)
        }),
{
    let fields = key_order(secondary.dom());
    lemma_key_order_len(secondary.dom());
    let field = fields[n];
    assert(fields.contains(field));
    assert(secondary.dom().contains(field));
    let values = key_order(secondary[field].dom());
    lemma_key_order_len(secondary[field].dom());
    let value = values[i - 1];
    assert(values.contains(value));
    lemma_not_before(fields, n);
    let a = secondary[field].restrict(values.take(i - 1).to_set());
    let b = secondary[field].restrict(values.take(i).to_set());
    let before = partly_listed(secondary, n, i - 1);
    assert(field_at(before, field) == a);
    assert(offsets_at(field_at(secondary, field), value) == secondary[field][value]);
    assert forall|v: Seq<char>| values.take(i).contains(v) <==> values.take(i - 1).contains(v) || v
        == value by {
        lemma_take_contains(values, i, v);
    }
    assert(listed(a, value, secondary[field][value]) =~= b);
    assert(before.insert(field, b) =~= partly_listed(secondary, n, i));
}

proof fn lemma_field_done(
    secondary: Map<Seq<char>, Map<Seq<char>, Seq<u64>>>,
    unique: Seq<Seq<char>>,
    n: int,
)
    requires
        well_listed(secondary, unique),
        secondary.dom().finite(),
        0 < n <= key_order(secondary.dom()).len(),
    ensures
        partly_listed(secondary, n, 0) == partly_listed(
            secondary,
            n - 1,
            key_order(secondary[key_order(secondary.dom())[n - 1]].dom()).len() as int,
        ),
{
    let fields = key_order(secondary.dom());
    let total = fields.len() as int;
    lemma_key_order_len(secondary.dom());
    let field = fields[n - 1];
    assert(fields.contains(field));
    assert(secondary.dom().contains(field));
    let values = key_order(secondary[field].dom());
    lemma_key_order_len(secondary[field].dom());
    lemma_not_before(fields, n - 1);
    assert(values.take(values.len() as int) =~= values);
    assert(secondary[field].restrict(values.to_set()) =~= secondary[field]);
    let a = partly_listed(secondary, n, 0);
    let b = partly_listed(secondary, n - 1, values.len() as int);
    assert forall|f: Seq<char>| secondary.dom().contains(f) implies a[f] == b[f] by {
        lemma_take_contains(fields, n, f);
        if n < total && f == fields[n] {
            lemma_not_before(fields, n);
            lemma_none_taken(secondary[f]);
        }
    }
    assert(a =~= b);
}

proof fn lemma_no_field(
    secondary: Map<Seq<char>, Map<Seq<char>, Seq<u64>>>,
    unique: Seq<Seq<char>>,
)
    requires
        well_listed(secondary, unique),
    ensures
        partly_listed(secondary, 0, 0) == packing_start(unique).secondary,
{
    let fields = key_order(secondary.dom());
    let a = partly_listed(secondary, 0, 0);
    assert forall|f: Seq<char>| secondary.dom().contains(f) implies a[f] == Map::<
        Seq<char>,
        Seq<u64>,
    >::empty() by {
        lemma_none_taken(secondary[f]);
    }
    assert(a =~= packing_start(unique).secondary);
}

proof fn lemma_none_taken(index: Map<Seq<char>, Seq<u64>>)
    ensures
        index.restrict(key_order(index.dom()).take(0).to_set()) == Map::<
            Seq<char>,
            Seq<u64>,
        >::empty(),
{
    let none = key_order(index.dom()).take(0).to_set();
    assert(none =~= Set::empty());
    assert(index.restrict(none) =~= Map::empty());
}

/// A key that is listed does not stand among those listed before it.
proof fn lemma_not_before(keys: Seq<Seq<char>>, n: int)
    requires
        keys_ascend(keys),
        0 <= n < keys.len(),
    ensures
        !keys.take(n).contains(keys[n]),
{
    if keys.take(n).contains(keys[n]) {
        let k = choose|k: int| 0 <= k < n && keys.take(n)[k] == keys[n];
        assert(text_before(keys[k], keys[n]));
        lemma_before_irreflexive(keys[n]);
    }
}

proof fn lemma_take_contains(keys: Seq<Seq<char>>, n: int, key: Seq<char>)
    requires
        0 < n <= keys.len(),
    ensures
        keys.take(n).contains(key) <==> keys.take(n - 1).contains(key) || key == keys[n - 1],
{
    let longer = keys.take(n);
    let shorter = keys.take(n - 1);
    if shorter.contains(key) {
        let k = choose|k: int| 0 <= k < shorter.len() && shorter[k] == key;
        assert(longer[k] == key);
    }
    if longer.contains(key) && key != keys[n - 1] {
        let k = choose|k: int| 0 <= k < longer.len() && longer[k] == key;
        assert(shorter[k] == key);
    }
    assert(longer[n - 1] == keys[n - 1]);
}

proof fn lemma_packed_count(primary_key: Seq<char>, unique: Seq<Seq<char>>, live: Seq<LiveModel>, n: int)
    requires
        0 <= n <= live.len(),
    ensures
        packing(primary_key, unique, live, n).primary.dom().finite(),
        packing(primary_key, unique, live, n).primary.dom().len() <= n,
    decreases n,
{
    if n > 0 {
        lemma_packed_count(primary_key, unique, live, n - 1);
        let before = packing(primary_key, unique, live, n - 1).primary;
        let key = live[n - 1].record.get_text(primary_key)->0;
        assert(packing(primary_key, unique, live, n).primary.dom() =~= before.dom().insert(key));
    }
}

/// The index file that a compaction writes anew tells what the compacted drawer knows, so that
/// the drawer holds the same records when it is opened again.
pub proof fn law_compacted_drawer_is_told(
    m: DrawerModel,
    live: Seq<LiveModel>,
    places: Seq<(u64, usize)>,
)
    requires
        plain_fields(m),
        live.len() <= usize::MAX,
        ({
            let done = packing(m.primary_key, m.unique, live, live.len() as int);
            places_free(
                empty_file(),
                done.index_logs + secondary_logs(
                    done.secondary,
                    key_order(done.secondary.dom()).len() as int,
                ),
                places,
            )
        }),
    ensures
        ({
            let done = packing(m.primary_key, m.unique, live, live.len() as int);
            let logs = done.index_logs + secondary_logs(
                done.secondary,
                key_order(done.secondary.dom()).len() as int,
            );
            is_sound(
                DrawerState {
                    drawer: vacuumed(m, done),
                    records: packed_records(live),
                    file: entries_written(empty_file(), logs, places, logs.len() as int),
                },
            )
        }),
{
    let n = live.len() as int;
    let done = packing(m.primary_key, m.unique, live, n);
    let secondary = done.secondary;
    let fields = key_order(secondary.dom());
    let all = secondary_logs(secondary, fields.len() as int);
    let logs = done.index_logs + all;
    lemma_packing_listed(m.primary_key, m.unique, live, n);
    vstd::seq_lib::seq_to_set_is_finite(m.unique);
    assert(secondary.dom() =~= m.unique.to_set());
    lemma_key_order_len(secondary.dom());
    lemma_keys_told(m, live, logs, places, n);
    assert forall|k: int| 0 <= k < all.len() implies #[trigger] logs[n + k] == all[k] by {}
    lemma_values_told(
        m,
        done.primary,
        secondary,
        logs,
        places,
        n,
        fields.len() as int,
        0,
    );
    assert(partly_listed(secondary, fields.len() as int, 0) =~= secondary) by {
        assert(fields.take(fields.len() as int) =~= fields);
    }
    lemma_packed_count(m.primary_key, m.unique, live, n);
    lemma_key_order_len(done.primary.dom());
    let now = DrawerModel { primary: done.primary, secondary, ..m };
    lemma_same_told(
        entries_written(empty_file(), logs, places, logs.len() as int),
        now,
        vacuumed(m, done),
    );
}

} // verus!
