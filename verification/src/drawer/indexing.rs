//! Building indexes from the records, and looking filters up in them.
use crate::drawer::index::{
    equality_filter_index_key, field_at, field_model, filter_key, group_index,
    intersect_sorted_offsets, is_sorted_set, offsets_at, offsets_for, record_index_key, record_key,
    sorted_set, strictly_ascending, FieldIndex,
};
use crate::drawer::replay::{slot_key, IndexSlots};
use crate::drawer::{
    extension_fields, offsets_index_value, offsets_json, Drawer, DrawerModel, IndexLog, LogModel,
};
use crate::error::{bad_data, Error, Failure};
use crate::fields::{key_order, lists, TextMap};
use crate::offsets::OffsetMap;
use crate::text::{
    after_prefix, concat2, concat3, concat5, holds, owned, same, same_opt, strip_prefix,
};
use crate::value::{json_fields, jsons, Json, JsonValue};
use vstd::prelude::*;

verus! {

/// The records that stand in the data file, by offset.
pub type StoredRecords = OffsetMap<JsonValue>;

/// The model of the records that stand in the data file.
pub open spec fn stored(records: StoredRecords) -> Map<u64, Json> {
    Map::new(|o: u64| records@.dom().contains(o), |o: u64| records@[o]@)
}

/// The failure of an index that would hold a value twice.
pub open spec fn twice_indexed(field: Seq<char>, value: Seq<char>) -> Failure {
    bad_data(
        "Cannot add unique constraint for '"@ + field + "' because value '"@ + value
            + "' already exists"@,
    )
}

/// The index of a field once the record with the key was put into it. A record that does not
/// hold the key is passed over, and so is one without a value to index.
pub open spec fn record_indexed(
    m: DrawerModel,
    records: Map<u64, Json>,
    field: Seq<char>,
    unique: bool,
    index: Map<Seq<char>, Seq<u64>>,
    key: Seq<char>,
) -> Result<Map<Seq<char>, Seq<u64>>, Failure> {
    let offset = m.primary[key];
    if !records.dom().contains(offset) {
        Ok(index)
    } else {
        match record_key(records[offset], field) {
            None => Ok(index),
            Some(value) => if unique && index.dom().contains(value) {
                Err(twice_indexed(field, value))
            } else if records[offset].get_text(m.primary_key) != Some(key) {
                Ok(index)
            } else {
                Ok(index.insert(value, offsets_at(index, value).push(offset)))
            },
        }
    }
}

/// The index of a field once the records from the `i`-th key on were put into it.
pub open spec fn indexed_from(
    m: DrawerModel,
    records: Map<u64, Json>,
    field: Seq<char>,
    unique: bool,
    index: Map<Seq<char>, Seq<u64>>,
    i: int,
) -> Result<Map<Seq<char>, Seq<u64>>, Failure>
    decreases key_order(m.primary.dom()).len() - i,
{
    let keys = key_order(m.primary.dom());
    if i >= keys.len() {
        Ok(index)
    } else {
        match record_indexed(m, records, field, unique, index, keys[i]) {
            Ok(more) => indexed_from(m, records, field, unique, more, i + 1),
            Err(f) => Err(f),
        }
    }
}

/// The index of a field over all live records, in the order of their keys.
pub open spec fn built_index(
    m: DrawerModel,
    records: Map<u64, Json>,
    field: Seq<char>,
    unique: bool,
) -> Result<Map<Seq<char>, Seq<u64>>, Failure> {
    indexed_from(m, records, field, unique, Map::empty(), 0)
}

/// Whether the key's record stands at the offset, holds the key, and has the value in the field.
pub open spec fn holds_value(
    m: DrawerModel,
    records: Map<u64, Json>,
    field: Seq<char>,
    value: Seq<char>,
    offset: u64,
    key: Seq<char>,
) -> bool {
    &&& m.primary.dom().contains(key)
    &&& m.primary[key] == offset
    &&& records.dom().contains(offset)
    &&& records[offset].get_text(m.primary_key) == Some(key)
    &&& record_key(records[offset], field) == Some(value)
}

/// Whether one of the first `n` keys has its record at the offset with the value in the field.
pub open spec fn held_among(
    m: DrawerModel,
    records: Map<u64, Json>,
    field: Seq<char>,
    value: Seq<char>,
    offset: u64,
    n: int,
) -> bool {
    exists|j: int|
        0 <= j < n && holds_value(
            m,
            records,
            field,
            value,
            offset,
            #[trigger] key_order(m.primary.dom())[j],
        )
}

pub proof fn lemma_indexed_from(
    m: DrawerModel,
    records: Map<u64, Json>,
    field: Seq<char>,
    unique: bool,
    index: Map<Seq<char>, Seq<u64>>,
    i: int,
)
    requires
        lists(key_order(m.primary.dom()), m.primary.dom()),
        0 <= i <= key_order(m.primary.dom()).len(),
        forall|v: Seq<char>, o: u64|
            (#[trigger] offsets_at(index, v).contains(o)) <==> held_among(
                m,
                records,
                field,
                v,
                o,
                i,
            ),
    ensures
        !unique ==> indexed_from(m, records, field, unique, index, i) is Ok,
        indexed_from(m, records, field, unique, index, i) matches Ok(built) ==> forall|
            v: Seq<char>,
            o: u64,
        |
            (#[trigger] offsets_at(built, v).contains(o)) <==> held_among(
                m,
                records,
                field,
                v,
                o,
                key_order(m.primary.dom()).len() as int,
            ),
    decreases key_order(m.primary.dom()).len() - i,
{
    let keys = key_order(m.primary.dom());
    if i < keys.len() {
        let key = keys[i];
        assert(keys.contains(key));
        match record_indexed(m, records, field, unique, index, key) {
            Ok(more) => {
                assert forall|v: Seq<char>, o: u64|
                    (#[trigger] offsets_at(more, v).contains(o)) <==> held_among(
                        m,
                        records,
                        field,
                        v,
                        o,
                        i + 1,
                    ) by {
                    let was = offsets_at(index, v);
                    let now = offsets_at(more, v);
                    assert(was.contains(o) <==> held_among(m, records, field, v, o, i));
                    assert(held_among(m, records, field, v, o, i + 1) <==> held_among(
                        m,
                        records,
                        field,
                        v,
                        o,
                        i,
                    ) || holds_value(m, records, field, v, o, key)) by {
                        if held_among(m, records, field, v, o, i) {
                            let j = choose|j: int|
                                0 <= j < i && holds_value(
                                    m,
                                    records,
                                    field,
                                    v,
                                    o,
                                    #[trigger] keys[j],
                                );
                            assert(0 <= j < i + 1 && holds_value(m, records, field, v, o, keys[j]));
                        }
                        if holds_value(m, records, field, v, o, key) {
                            assert(holds_value(m, records, field, v, o, keys[i]));
                        }
                    }
                    if holds_value(m, records, field, v, o, key) {
                        assert(now == was.push(o));
                        assert(now[was.len() as int] == o);
                    } else if now != was {
                        assert(now == was.push(m.primary[key]));
                        assert(m.primary[key] != o);
                        if now.contains(o) {
                            let k = choose|k: int| 0 <= k < now.len() && now[k] == o;
                            assert(was[k] == o);
                        }
                        if was.contains(o) {
                            let k = choose|k: int| 0 <= k < was.len() && was[k] == o;
                            assert(now[k] == o);
                        }
                    }
                    if was.contains(o) && now == was.push(o) {
                        assert(now.contains(o));
                    }
                }
                lemma_indexed_from(m, records, field, unique, more, i + 1);
            },
            Err(_) => {},
        }
    }
}

/// An index that need not be unique can always be built. It gives for a value the offsets of
/// the records that hold their key and have that value in the field, and no others.
pub proof fn law_built_index_is_exact(
    m: DrawerModel,
    records: Map<u64, Json>,
    field: Seq<char>,
    value: Seq<char>,
    offset: u64,
)
    requires
        lists(key_order(m.primary.dom()), m.primary.dom()),
    ensures
        built_index(m, records, field, false) matches Ok(index) && (offsets_at(
            index,
            value,
        ).contains(offset) <==> exists|key: Seq<char>| #[trigger]
            holds_value(m, records, field, value, offset, key)),
{
    let keys = key_order(m.primary.dom());
    assert forall|v: Seq<char>, o: u64|
        !(#[trigger] offsets_at(Map::empty(), v).contains(o)) && !held_among(
            m,
            records,
            field,
            v,
            o,
            0,
        ) by {}
    lemma_indexed_from(m, records, field, false, Map::empty(), 0);
    let index = built_index(m, records, field, false)->Ok_0;
    assert(offsets_at(index, value).contains(offset) <==> held_among(
        m,
        records,
        field,
        value,
        offset,
        keys.len() as int,
    ));
    if exists|key: Seq<char>| #[trigger] holds_value(m, records, field, value, offset, key) {
        let key = choose|key: Seq<char>| #[trigger]
            holds_value(m, records, field, value, offset, key);
        assert(keys.contains(key));
        let j = choose|j: int| 0 <= j < keys.len() && keys[j] == key;
        assert(holds_value(m, records, field, value, offset, keys[j]));
    }
}

/// A change to the index file: an entry that is overwritten with a tombstone, or one that is
/// written.
pub enum IndexChange {
    Bury { field: String, key: String },
    Write(IndexLog),
}

/// The model of a change to the index file.
pub enum ChangeModel {
    Bury { field: Seq<char>, key: Seq<char> },
    Write(LogModel),
}

impl View for IndexChange {
    type V = ChangeModel;

    open spec fn view(&self) -> ChangeModel {
        match self {
            IndexChange::Bury { field, key } => ChangeModel::Bury { field: field@, key: key@ },
            IndexChange::Write(log) => ChangeModel::Write(log@),
        }
    }
}

/// The models of a sequence of changes.
pub open spec fn changes(all: Seq<IndexChange>) -> Seq<ChangeModel> {
    Seq::new(all.len(), |i: int| all[i]@)
}

/// The values for which the index file has an entry of the field, among the first `n` names, and
/// the index has none.
pub open spec fn stale_values(
    names: Seq<Seq<char>>,
    field: Seq<char>,
    index: Set<Seq<char>>,
    n: int,
) -> Seq<Seq<char>>
    decreases n,
{
    if n <= 0 {
        Seq::empty()
    } else {
        let before = stale_values(names, field, index, n - 1);
        match after_prefix(names[n - 1], field + ":"@) {
            Some(value) => if index.contains(value) {
                before
            } else {
                before.push(value)
            },
            None => before,
        }
    }
}

/// The changes that bury entries.
pub open spec fn burials(field: Seq<char>, values: Seq<Seq<char>>) -> Seq<ChangeModel> {
    Seq::new(values.len(), |i: int| ChangeModel::Bury { field, key: values[i] })
}

/// The changes that write an index.
pub open spec fn index_writes(field: Seq<char>, index: Map<Seq<char>, Seq<u64>>) -> Seq<
    ChangeModel,
> {
    let values = key_order(index.dom());
    Seq::new(
        values.len(),
        |i: int|
            ChangeModel::Write(
                LogModel {
                    field,
                    key: values[i],
                    offset: offsets_json(index[values[i]]),
                    block: None,
                },
            ),
    )
}

/// The changes that bring the index file in line with an index: what it has beyond the index is
/// buried, then the index is written.
pub open spec fn snapshot(
    names: Set<Seq<char>>,
    field: Seq<char>,
    index: Map<Seq<char>, Seq<u64>>,
) -> Seq<ChangeModel> {
    let known = key_order(names);
    burials(field, stale_values(known, field, index.dom(), known.len() as int)) + index_writes(
        field,
        index,
    )
}

/// The names of the entries in the index file once the first `n` changes were made.
pub open spec fn named_after(names: Set<Seq<char>>, made: Seq<ChangeModel>, n: int) -> Set<
    Seq<char>,
>
    decreases n,
{
    if n <= 0 {
        names
    } else {
        let before = named_after(names, made, n - 1);
        match made[n - 1] {
            ChangeModel::Bury { field, key } => before.remove(slot_key(field, key)),
            ChangeModel::Write(log) => before.insert(slot_key(log.field, log.key)),
        }
    }
}

/// The names of the entries in an index file.
pub type EntryNames = TextMap<()>;

/// The names of the entries that stand in the slots.
pub fn entry_names(slots: &IndexSlots) -> (r: EntryNames)
    ensures
        r@.dom() == slots@.dom(),
{
    let mut out: EntryNames = TextMap::new();
    let n: usize = slots.slots.len();
    let ghost keys = slots.slots.keys();
    let mut i: usize = 0;
    while i < n
        invariant
            keys == slots.slots.keys(),
            lists(keys, slots@.dom()),
            n == keys.len(),
            i <= n,
            forall|k: Seq<char>| #[trigger] out@.dom().contains(k) ==> slots@.dom().contains(k),
            forall|j: int| 0 <= j < i ==> out@.dom().contains(#[trigger] keys[j]),
        decreases n - i,
    {
        out.insert(slots.slots.key_at(i).clone(), ());
        i += 1;
    }
    proof {
        assert forall|k: Seq<char>| slots@.dom().contains(k) implies out@.dom().contains(k) by {
            assert(keys.contains(k));
        }
        assert(out@.dom() =~= slots@.dom());
    }
    out
}

/// Notes the changes from position `from` on in the names.
fn note_changes(names: &mut EntryNames, made: &Vec<IndexChange>, from: usize)
    requires
        from <= made@.len(),
    ensures
        final(names)@.dom() == named_after(
            old(names)@.dom(),
            changes(made@).subrange(from as int, made@.len() as int),
            made@.len() - from,
        ),
{
    let ghost all = changes(made@).subrange(from as int, made@.len() as int);
    let mut i: usize = from;
    while i < made.len()
        invariant
            from <= i <= made@.len(),
            all == changes(made@).subrange(from as int, made@.len() as int),
            names@.dom() == named_after(old(names)@.dom(), all, i - from),
        decreases made@.len() - i,
    {
        assert(all[i - from] == made@[i as int]@);
        match &made[i] {
            IndexChange::Bury { field, key } => {
                let name = concat3(field.as_str(), ":", key.as_str());
                names.remove(name.as_str());
            },
            IndexChange::Write(log) => {
                names.insert(concat3(log.field.as_str(), ":", log.key.as_str()), ());
            },
        }
        i += 1;
        assert(names@.dom() =~= named_after(old(names)@.dom(), all, i - from));
    }
}

/// Adds the changes that bring the index file in line with the index of a field.
pub fn write_secondary_index_snapshot(
    names: &EntryNames,
    field: &str,
    index: &FieldIndex,
    out: &mut Vec<IndexChange>,
)
    ensures
        changes(final(out)@) == changes(old(out)@) + snapshot(
            names@.dom(),
            field@,
            field_model(*index),
        ),
{
    let prefix = concat2(field, ":");
    let ghost start = changes(out@);
    let ghost known = names.keys();
    let ghost values = field_model(*index);
    assert(values.dom() =~= index@.dom());
    let n: usize = names.len();
    let mut i: usize = 0;
    assert(start + burials(field@, Seq::empty()) =~= start);
    while i < n
        invariant
            known == names.keys(),
            n == known.len(),
            i <= n,
            prefix@ == field@ + ":"@,
            values.dom() == index@.dom(),
            changes(out@) == start + burials(
                field@,
                stale_values(known, field@, values.dom(), i as int),
            ),
        decreases n - i,
    {
        let ghost before = out@;
        let ghost stale = stale_values(known, field@, values.dom(), i as int);
        match strip_prefix(names.key_at(i).as_str(), prefix.as_str()) {
            Some(value) => {
                if !index.contains_key(value.as_str()) {
                    let ghost v = value@;
                    out.push(IndexChange::Bury { field: owned(field), key: value });
                    assert(changes(out@) =~= changes(before).push(
                        ChangeModel::Bury { field: field@, key: v },
                    ));
                    assert(start + burials(field@, stale.push(v)) =~= (start + burials(
                        field@,
                        stale,
                    )).push(ChangeModel::Bury { field: field@, key: v }));
                }
            },
            None => {},
        }
        i += 1;
    }
    let ghost buried = changes(out@);
    let ghost writes = index_writes(field@, values);
    let count: usize = index.len();
    let mut j: usize = 0;
    assert(buried + writes.subrange(0, 0) =~= buried);
    while j < count
        invariant
            values == field_model(*index),
            values.dom() == index@.dom(),
            count == index.keys().len(),
            writes == index_writes(field@, values),
            j <= count,
            changes(out@) == buried + writes.subrange(0, j as int),
        decreases count - j,
    {
        let ghost before = out@;
        let log = IndexLog {
            field: owned(field),
            key: index.key_at(j).clone(),
            offset: offsets_index_value(index.value_at(j)),
            block: None,
        };
        assert(ChangeModel::Write(log@) == writes[j as int]);
        out.push(IndexChange::Write(log));
        j += 1;
        proof {
            assert(changes(out@) =~= changes(before).push(writes[j - 1]));
            assert(buried + writes.subrange(0, j as int) =~= (buried + writes.subrange(
                0,
                j - 1,
            )).push(writes[j - 1]));
        }
    }
    proof {
        assert(writes.subrange(0, j as int) =~= writes);
        assert(buried + writes =~= start + snapshot(names@.dom(), field@, values));
    }
}

/// Whether the drawer has an index of the field to look filters up in: the field is unique, or
/// the schema declares an index of it.
pub open spec fn can_satisfy(m: DrawerModel, field: Seq<char>) -> bool {
    m.unique.contains(field) || extension_fields(m.schema, "indexes"@).contains(field)
}

/// Whether the query index of a field was written at the present generation and is in memory.
pub open spec fn is_materialized(m: DrawerModel, field: Seq<char>) -> bool {
    &&& m.materialized.dom().contains(field)
    &&& m.materialized[field] == m.generation
    &&& m.secondary.dom().contains(field)
}

/// Whether two indexes give the same offsets for each value.
pub open spec fn same_index(a: Map<Seq<char>, Seq<u64>>, b: Map<Seq<char>, Seq<u64>>) -> bool {
    &&& a.dom() == b.dom()
    &&& forall|v: Seq<char>, o: u64|
        a.dom().contains(v) ==> (#[trigger] a[v].contains(o) <==> b[v].contains(o))
}

/// The drawer with the index of a field in memory.
pub open spec fn with_index(
    m: DrawerModel,
    field: Seq<char>,
    index: Map<Seq<char>, Seq<u64>>,
) -> DrawerModel {
    DrawerModel { secondary: m.secondary.insert(field, index), ..m }
}

/// The drawer with the query index of a field materialized, and its metadata written.
pub open spec fn with_query_index(
    m: DrawerModel,
    field: Seq<char>,
    index: Map<Seq<char>, Seq<u64>>,
) -> DrawerModel {
    DrawerModel {
        secondary: m.secondary.insert(field, index),
        materialized: m.materialized.insert(field, m.generation),
        validated: m.validated.insert(field),
        metadata_dirty: false,
        ..m
    }
}

/// The offsets are the same set.
fn same_offsets(a: &Vec<u64>, b: &Vec<u64>) -> (r: bool)
    ensures
        r == (forall|o: u64| #[trigger] a@.contains(o) <==> b@.contains(o)),
{
    let x = sorted_set(a);
    let y = sorted_set(b);
    let mut i: usize = 0;
    if x.len() != y.len() {
        proof {
            if forall|o: u64| #[trigger] a@.contains(o) <==> b@.contains(o) {
                assert(is_sorted_set(x@, b@)) by {
                    assert forall|o: u64| #[trigger] x@.contains(o) <==> b@.contains(o) by {
                        assert(a@.contains(o) <==> b@.contains(o));
                    }
                }
                lemma_sorted_set_unique(x@, y@, b@);
            }
        }
        return false;
    }
    while i < x.len()
        invariant
            x@.len() == y@.len(),
            i <= x@.len(),
            x@.subrange(0, i as int) == y@.subrange(0, i as int),
            is_sorted_set(x@, a@),
            is_sorted_set(y@, b@),
        decreases x@.len() - i,
    {
        if x[i] != y[i] {
            proof {
                if forall|o: u64| #[trigger] a@.contains(o) <==> b@.contains(o) {
                    assert(is_sorted_set(x@, b@)) by {
                        assert forall|o: u64| #[trigger] x@.contains(o) <==> b@.contains(o) by {
                            assert(a@.contains(o) <==> b@.contains(o));
                        }
                    }
                    lemma_sorted_set_unique(x@, y@, b@);
                }
            }
            return false;
        }
        i += 1;
        assert(x@.subrange(0, i as int) =~= x@.subrange(0, i - 1).push(x@[i - 1]));
        assert(y@.subrange(0, i as int) =~= y@.subrange(0, i - 1).push(y@[i - 1]));
    }
    proof {
        assert(x@ =~= x@.subrange(0, i as int));
        assert(y@ =~= y@.subrange(0, i as int));
        assert forall|o: u64| #[trigger] a@.contains(o) <==> b@.contains(o) by {
            assert(x@.contains(o) <==> a@.contains(o));
            assert(y@.contains(o) <==> b@.contains(o));
        }
    }
    true
}

/// A set has one ascending list.
proof fn lemma_sorted_set_unique(x: Seq<u64>, y: Seq<u64>, offsets: Seq<u64>)
    requires
        is_sorted_set(x, offsets),
        is_sorted_set(y, offsets),
    ensures
        x == y,
{
    assert forall|o: u64| x.contains(o) <==> y.contains(o) by {
        assert(x.contains(o) <==> offsets.contains(o));
        assert(y.contains(o) <==> offsets.contains(o));
    }
    lemma_ascending_unique(x, y, 0);
    lemma_ascending_unique(y, x, 0);
    assert(x =~= y) by {
        assert forall|k: int| 0 <= k < x.len() && k < y.len() implies x[k] == y[k] by {}
    }
}

/// Where the first `n` items agree, the rest of the shorter list agrees too.
proof fn lemma_ascending_unique(x: Seq<u64>, y: Seq<u64>, n: int)
    requires
        strictly_ascending(x),
        strictly_ascending(y),
        forall|o: u64| x.contains(o) <==> y.contains(o),
        0 <= n <= x.len(),
        n <= y.len(),
        forall|k: int| 0 <= k < n ==> x[k] == y[k],
    ensures
        x.len() <= y.len(),
        forall|k: int| 0 <= k < x.len() ==> x[k] == y[k],
    decreases x.len() - n,
{
    if n < x.len() {
        assert(x.contains(x[n]));
        assert(y.contains(x[n]));
        let j = choose|j: int| 0 <= j < y.len() && y[j] == x[n];
        if j < n {
            assert(x[j] == y[j]);
        }
        assert(n < y.len());
        assert(y.contains(y[n]));
        assert(x.contains(y[n]));
        let i = choose|i: int| 0 <= i < x.len() && x[i] == y[n];
        if i < n {
            assert(x[i] == y[i]);
        }
        if j > n {
            assert(y[n] < y[j]);
            if i > n {
                assert(x[n] < x[i]);
            }
        }
        assert(x[n] == y[n]);
        lemma_ascending_unique(x, y, n + 1);
    }
}

/// Whether two indexes give the same offsets for each value.
pub fn same_field_index(a: &FieldIndex, b: &FieldIndex) -> (r: bool)
    ensures
        r == same_index(field_model(*a), field_model(*b)),
{
    let ghost x = field_model(*a);
    let ghost y = field_model(*b);
    assert(x.dom() =~= a@.dom());
    assert(y.dom() =~= b@.dom());
    let n: usize = a.len();
    let ghost keys = a.keys();
    let mut i: usize = 0;
    while i < n
        invariant
            x == field_model(*a),
            y == field_model(*b),
            x.dom() == a@.dom(),
            y.dom() == b@.dom(),
            keys == a.keys(),
            lists(keys, a@.dom()),
            n == keys.len(),
            i <= n,
            forall|j: int|
                0 <= j < i ==> y.dom().contains(#[trigger] keys[j]) && forall|o: u64|
                    (#[trigger] x[keys[j]].contains(o)) <==> y[keys[j]].contains(o),
        decreases n - i,
    {
        let key = a.key_at(i);
        match b.get(key.as_str()) {
            Some(offsets) => {
                if !same_offsets(a.value_at(i), offsets) {
                    proof {
                        let o = choose|o: u64|
                            !(#[trigger] x[key@].contains(o) <==> y[key@].contains(o));
                        assert(!(x[key@].contains(o) <==> y[key@].contains(o)));
                        assert(!same_index(x, y));
                    }
                    return false;
                }
            },
            None => {
                return false;
            },
        }
        i += 1;
    }
    let m: usize = b.len();
    let ghost others = b.keys();
    let mut j: usize = 0;
    while j < m
        invariant
            x == field_model(*a),
            y == field_model(*b),
            x.dom() == a@.dom(),
            y.dom() == b@.dom(),
            others == b.keys(),
            m == others.len(),
            j <= m,
            forall|k: int| 0 <= k < j ==> x.dom().contains(#[trigger] others[k]),
        decreases m - j,
    {
        if !a.contains_key(b.key_at(j).as_str()) {
            return false;
        }
        j += 1;
    }
    proof {
        assert(x.dom() =~= y.dom()) by {
            assert forall|v: Seq<char>| x.dom().contains(v) <==> y.dom().contains(v) by {
                if x.dom().contains(v) {
                    assert(keys.contains(v));
                }
                if y.dom().contains(v) {
                    assert(others.contains(v));
                }
            }
        }
        assert forall|v: Seq<char>, o: u64| x.dom().contains(v) implies (#[trigger] x[v].contains(o)
            <==> y[v].contains(o)) by {
            assert(keys.contains(v));
        }
    }
    true
}

impl Drawer {
    /// The index of a field over all live records, of which `records` holds those that could be
    /// read. Fails where it must be unique and a value occurs twice.
    pub fn build_secondary_index(
        &self,
        records: &StoredRecords,
        field: &str,
        enforce_unique: bool,
    ) -> (r: Result<FieldIndex, Error>)
        ensures
            match r {
                Ok(index) => built_index(self@, stored(*records), field@, enforce_unique)
                    == Ok::<_, Failure>(field_model(index)),
                Err(e) => built_index(self@, stored(*records), field@, enforce_unique) == Err::<
                    Map<Seq<char>, Seq<u64>>,
                    Failure,
                >(e@),
            },
    {
        let ghost m = self@;
        let ghost all = stored(*records);
        let mut index: FieldIndex = TextMap::new();
        assert(field_model(index) =~= Map::empty());
        let n: usize = self.primary_memory_index.len();
        let mut i: usize = 0;
        while i < n
            invariant
                m == self@,
                all == stored(*records),
                n == key_order(m.primary.dom()).len(),
                i <= n,
                built_index(m, all, field@, enforce_unique) == indexed_from(
                    m,
                    all,
                    field@,
                    enforce_unique,
                    field_model(index),
                    i as int,
                ),
            decreases n - i,
        {
            let key = self.primary_memory_index.key_at(i);
            let offset: u64 = *self.primary_memory_index.value_at(i);
            match records.get(offset) {
                Some(record) => {
                    match record_index_key(record, field) {
                        Some(value) => {
                            if enforce_unique && index.contains_key(value.as_str()) {
                                assert(field_model(index).dom().contains(value@));
                                return Err(
                                    Error::invalid_data(
                                        concat5(
                                            "Cannot add unique constraint for '",
                                            field,
                                            "' because value '",
                                            value.as_str(),
                                            "' already exists",
                                        ),
                                    ),
                                );
                            }
                            if same_opt(
                                record.get_str(self.primary_key.as_str()),
                                Some(key.as_str()),
                            ) {
                                let ghost before = field_model(index);
                                let ghost v = value@;
                                let mut offsets = offsets_for(&index, value.as_str());
                                offsets.push(offset);
                                index.insert(value, offsets);
                                assert(field_model(index) =~= before.insert(
                                    v,
                                    offsets_at(before, v).push(offset),
                                ));
                            }
                        },
                        None => {},
                    }
                },
                None => {},
            }
            i += 1;
        }
        Ok(index)
    }

    pub fn index_can_satisfy_filter(&self, field_name: &str) -> (r: bool)
        ensures
            r == can_satisfy(self@, field_name@),
    {
        holds(&self.unique_constraints, field_name) || self.schema_has_index(field_name)
    }

    pub fn query_index_is_materialized(&self, field_name: &str) -> (r: bool)
        ensures
            r == is_materialized(self@, field_name@),
    {
        match self.materialized_secondary_indexes.get(field_name) {
            Some(generation) => *generation == self.secondary_index_generation
                && self.secondary_memory_index.contains_key(field_name),
            None => false,
        }
    }

    /// Whether the index of a field that is in memory agrees with the records.
    pub fn secondary_index_matches_authoritative(
        &self,
        records: &StoredRecords,
        field_name: &str,
    ) -> (r: bool)
        ensures
            r == (self@.secondary.dom().contains(field_name@) && same_index(
                self@.secondary[field_name@],
                built_index(self@, stored(*records), field_name@, false)->Ok_0,
            )),
    {
        let count: usize = self.primary_memory_index.len();
        match self.build_secondary_index(records, field_name, false) {
            Ok(expected) => match self.secondary_memory_index.get(field_name) {
                Some(actual) => same_field_index(actual, &expected),
                None => false,
            },
            Err(_) => {
                proof {
                    lemma_builds(self@, stored(*records), field_name@);
                }
                false
            },
        }
    }

    /// Materializes the query index of a field, and adds the changes to the index file. The
    /// metadata has to be written then.
    pub(crate) fn materialize_query_index(
        &mut self,
        records: &StoredRecords,
        names: &EntryNames,
        field_name: &str,
        out: &mut Vec<IndexChange>,
    )
        ensures
            ({
                let m = old(self)@;
                let index = built_index(m, stored(*records), field_name@, false)->Ok_0;
                &&& built_index(m, stored(*records), field_name@, false) is Ok
                &&& final(self)@ == with_query_index(m, field_name@, index)
                &&& changes(final(out)@) == changes(old(out)@) + snapshot(
                    names@.dom(),
                    field_name@,
                    index,
                )
            }),
    {
        broadcast use group_index;

        let ghost m = self@;
        let count: usize = self.primary_memory_index.len();
        proof {
            lemma_builds(m, stored(*records), field_name@);
        }
        match self.build_secondary_index(records, field_name, false) {
            Ok(index) => {
                let ghost built = field_model(index);
                write_secondary_index_snapshot(names, field_name, &index, out);
                self.secondary_memory_index.insert(owned(field_name), index);
                self.materialized_secondary_indexes.insert(
                    owned(field_name),
                    self.secondary_index_generation,
                );
                self.validated_secondary_indexes.insert(owned(field_name), ());
                self.metadata_dirty = false;
                assert(self@ =~= with_query_index(m, field_name@, built));
            },
            Err(_) => {},
        }
    }
}

proof fn lemma_builds(m: DrawerModel, records: Map<u64, Json>, field: Seq<char>)
    requires
        lists(key_order(m.primary.dom()), m.primary.dom()),
    ensures
        built_index(m, records, field, false) is Ok,
{
    law_built_index_is_exact(m, records, field, Seq::empty(), 0);
}

/// How far the indexes for a filter have been made ready.
#[verifier::ext_equal]
pub struct LookupModel {
    pub drawer: DrawerModel,
    /// The names of the entries in the index file.
    pub names: Set<Seq<char>>,
    /// The changes to the index file.
    pub changes: Seq<ChangeModel>,
    /// Whether an index was written that only later queries use.
    pub fresh: bool,
    /// Whether a field has no index, or an index could not be built.
    pub stop: Option<Option<Failure>>,
}

/// The state once the index of a field was made ready for a filter.
pub open spec fn field_readied(
    l: LookupModel,
    records: Map<u64, Json>,
    field: Seq<char>,
    value: Json,
) -> LookupModel {
    let m = l.drawer;
    if filter_key(value) is None || !can_satisfy(m, field) {
        LookupModel { stop: Some(None), ..l }
    } else if m.unique.contains(field) {
        if m.secondary.dom().contains(field) {
            l
        } else {
            match built_index(m, records, field, true) {
                Ok(index) => LookupModel { drawer: with_index(m, field, index), ..l },
                Err(f) => LookupModel { stop: Some(Some(f)), ..l },
            }
        }
    } else if is_materialized(m, field) && m.validated.contains(field) {
        l
    } else {
        let index = built_index(m, records, field, false)->Ok_0;
        if is_materialized(m, field) && same_index(m.secondary[field], index) {
            LookupModel {
                drawer: DrawerModel { validated: m.validated.insert(field), ..m },
                ..l
            }
        } else {
            let made = snapshot(l.names, field, index);
            LookupModel {
                drawer: with_query_index(m, field, index),
                names: named_after(l.names, made, made.len() as int),
                changes: l.changes + made,
                fresh: true,
                ..l
            }
        }
    }
}

/// The state once the indexes of the fields from the `i`-th on were made ready, up to one that
/// cannot be.
pub open spec fn readied_from(
    l: LookupModel,
    records: Map<u64, Json>,
    filter: Map<Seq<char>, Json>,
    i: int,
) -> LookupModel
    decreases key_order(filter.dom()).len() - i,
{
    let fields = key_order(filter.dom());
    if l.stop is Some || i >= fields.len() {
        l
    } else {
        readied_from(
            field_readied(l, records, fields[i], filter[fields[i]]),
            records,
            filter,
            i + 1,
        )
    }
}

/// The state before anything was made ready for a filter.
pub open spec fn lookup_start(m: DrawerModel, names: Set<Seq<char>>) -> LookupModel {
    LookupModel { drawer: m, names, changes: Seq::empty(), fresh: false, stop: None }
}

/// The state once the indexes for a filter were made ready.
pub open spec fn readied(
    m: DrawerModel,
    names: Set<Seq<char>>,
    records: Map<u64, Json>,
    filter: Map<Seq<char>, Json>,
) -> LookupModel {
    readied_from(lookup_start(m, names), records, filter, 0)
}

/// The offsets that the index of a field gives for what a filter asks of it.
pub open spec fn field_candidates(m: DrawerModel, field: Seq<char>, value: Json) -> Seq<u64> {
    match filter_key(value) {
        Some(key) => offsets_at(field_at(m.secondary, field), key),
        None => Seq::empty(),
    }
}

/// Whether each of the first `n` fields of a filter gives the offset.
pub open spec fn candidate_among(
    m: DrawerModel,
    filter: Map<Seq<char>, Json>,
    offset: u64,
    n: int,
) -> bool {
    forall|j: int|
        0 <= j < n ==> field_candidates(
            m,
            #[trigger] key_order(filter.dom())[j],
            filter[key_order(filter.dom())[j]],
        ).contains(offset)
}

/// Whether the offsets are those that the index of every field of a filter gives, in ascending
/// order and each once.
pub open spec fn are_candidates(
    m: DrawerModel,
    filter: Map<Seq<char>, Json>,
    offsets: Seq<u64>,
) -> bool {
    &&& strictly_ascending(offsets)
    &&& forall|o: u64| #[trigger]
        offsets.contains(o) <==> candidate_among(
            m,
            filter,
            o,
            key_order(filter.dom()).len() as int,
        )
}

/// What a lookup gives: the changes to the index file, whether the metadata has to be written,
/// and the offsets to read. Without offsets every record has to be looked at.
pub struct CandidateLookup {
    pub changes: Vec<IndexChange>,
    pub persist: bool,
    pub outcome: Result<Option<Vec<u64>>, Error>,
}

/// Whether making the index of a field ready reads the records.
pub open spec fn reads_records(m: DrawerModel, field: Seq<char>) -> bool {
    if m.unique.contains(field) {
        !m.secondary.dom().contains(field)
    } else {
        !is_materialized(m, field) || !m.validated.contains(field)
    }
}

impl Drawer {
    /// Whether looking up a filter reads the records.
    pub fn lookup_reads_records(&self, filter: &TextMap<JsonValue>) -> (r: bool)
        ensures
            r == (exists|j: int|
                0 <= j < key_order(filter@.dom()).len() && #[trigger] reads_records(
                    self@,
                    key_order(filter@.dom())[j],
                )),
    {
        let n: usize = filter.len();
        let mut i: usize = 0;
        while i < n
            invariant
                n == filter.keys().len(),
                i <= n,
                forall|j: int| 0 <= j < i ==> !#[trigger] reads_records(self@, filter.keys()[j]),
            decreases n - i,
        {
            let field = filter.key_at(i).as_str();
            let reads = if holds(&self.unique_constraints, field) {
                !self.secondary_memory_index.contains_key(field)
            } else {
                !self.query_index_is_materialized(field)
                    || !self.validated_secondary_indexes.contains_key(field)
            };
            assert(reads == reads_records(self@, filter.keys()[i as int]));
            if reads {
                return true;
            }
            i += 1;
        }
        false
    }

    /// Makes the index of a field ready for a filter.
    fn ready_field(
        &mut self,
        records: &StoredRecords,
        names: &mut EntryNames,
        field: &str,
        value: &JsonValue,
        out: &mut Vec<IndexChange>,
        Ghost(fresh): Ghost<bool>,
    ) -> (r: (bool, Option<Option<Error>>))
        ensures
            ({
                let l = LookupModel {
                    drawer: old(self)@,
                    names: old(names)@.dom(),
                    changes: changes(old(out)@),
                    fresh,
                    stop: None,
                };
                field_readied(l, stored(*records), field@, value@) == (LookupModel {
                    drawer: final(self)@,
                    names: final(names)@.dom(),
                    changes: changes(final(out)@),
                    fresh: fresh || r.0,
                    stop: stopped(r.1),
                })
            }),
    {
        broadcast use group_index;

        let ghost m = self@;
        let key = equality_filter_index_key(value);
        if key.is_none() || !self.index_can_satisfy_filter(field) {
            return (false, Some(None));
        }
        if holds(&self.unique_constraints, field) {
            if !self.secondary_memory_index.contains_key(field) {
                match self.build_secondary_index(records, field, true) {
                    Ok(index) => {
                        let ghost built = field_model(index);
                        self.secondary_memory_index.insert(owned(field), index);
                        assert(self@ =~= with_index(m, field@, built));
                    },
                    Err(e) => {
                        return (false, Some(Some(e)));
                    },
                }
            }
            return (false, None);
        }
        let materialized = self.query_index_is_materialized(field);
        if materialized && self.validated_secondary_indexes.contains_key(field) {
            return (false, None);
        }
        if materialized && self.secondary_index_matches_authoritative(records, field) {
            self.validated_secondary_indexes.insert(owned(field), ());
            assert(self@ =~= (DrawerModel { validated: m.validated.insert(field@), ..m }));
            return (false, None);
        }
        let from: usize = out.len();
        let ghost before = changes(out@);
        self.materialize_query_index(records, &*names, field, out);
        proof {
            let index = built_index(m, stored(*records), field@, false)->Ok_0;
            let made = snapshot(names@.dom(), field@, index);
            assert(changes(out@) == before + made);
            assert(changes(out@).len() == out@.len());
            assert(changes(out@).subrange(from as int, out@.len() as int) =~= made);
        }
        note_changes(names, &*out, from);
        (true, None)
    }

    /// The offsets that the indexes give for a filter, all of whose fields have one.
    fn candidate_offsets(&self, filter: &TextMap<JsonValue>) -> (r: Option<Vec<u64>>)
        ensures
            match r {
                Some(offsets) => are_candidates(self@, json_fields(*filter), offsets@),
                None => filter.keys().len() == 0 || exists|f: Seq<char>| #[trigger]
                    filter@.dom().contains(f) && (!self@.secondary.dom().contains(f) || filter_key(
                        filter@[f]@,
                    ) is None),
            },
    {
        let ghost all = json_fields(*filter);
        assert(all.dom() =~= filter@.dom());
        let n: usize = filter.len();
        if n == 0 {
            return None;
        }
        let mut found: Vec<u64> = Vec::new();
        let mut i: usize = 0;
        while i < n
            invariant
                all == json_fields(*filter),
                all.dom() == filter@.dom(),
                n == filter.keys().len(),
                i <= n,
                i > 0 ==> strictly_ascending(found@) && forall|o: u64| #[trigger]
                    found@.contains(o) <==> candidate_among(self@, all, o, i as int),
            decreases n - i,
        {
            let field = filter.key_at(i).as_str();
            let value = filter.value_at(i);
            let index = match self.secondary_memory_index.get(field) {
                Some(index) => index,
                None => {
                    assert(filter@.dom().contains(field@));
                    return None;
                },
            };
            let key = match equality_filter_index_key(value) {
                Some(key) => key,
                None => {
                    assert(filter@.dom().contains(field@));
                    return None;
                },
            };
            let held = offsets_for(index, key.as_str());
            let offsets = sorted_set(&held);
            let ghost before = found@;
            let ghost given = field_candidates(self@, field@, value@);
            assert(given =~= held@);
            if i == 0 {
                found = offsets;
            } else {
                found = intersect_sorted_offsets(found, offsets);
            }
            proof {
                assert forall|o: u64| #[trigger]
                    found@.contains(o) <==> candidate_among(self@, all, o, i + 1) by {
                    assert(offsets@.contains(o) <==> held@.contains(o));
                    if i > 0 {
                        assert(before.contains(o) <==> candidate_among(self@, all, o, i as int));
                        assert(found@.contains(o) <==> before.contains(o) && offsets@.contains(o));
                    }
                    assert(key_order(all.dom())[i as int] == field@);
                    if candidate_among(self@, all, o, i as int) && given.contains(o) {
                        assert forall|j: int| 0 <= j < i + 1 implies field_candidates(
                            self@,
                            #[trigger] key_order(all.dom())[j],
                            all[key_order(all.dom())[j]],
                        ).contains(o) by {}
                    }
                }
            }
            i += 1;
        }
        Some(found)
    }

    /// Looks a filter up in the indexes, and makes those ready that are not. A query index that
    /// was not written is written for later queries, and this one has to look at every record.
    pub fn indexed_candidate_offsets(
        &mut self,
        records: &StoredRecords,
        slots: &IndexSlots,
        filter: &TextMap<JsonValue>,
    ) -> (r: CandidateLookup)
        ensures
            ({
                let l = readied(
                    old(self)@,
                    slots@.dom(),
                    stored(*records),
                    json_fields(*filter),
                );
                &&& final(self)@ == l.drawer
                &&& changes(r.changes@) == l.changes
                &&& r.persist == l.fresh
                &&& match (l.stop, r.outcome) {
                    (Some(Some(f)), Err(e)) => e@ == f,
                    (Some(None), Ok(None)) => true,
                    (None, Ok(None)) => l.fresh || filter@.dom() =~= Set::<Seq<char>>::empty(),
                    (None, Ok(Some(offsets))) => !l.fresh && !(filter@.dom() =~= Set::<
                        Seq<char>,
                    >::empty()) && are_candidates(l.drawer, json_fields(*filter), offsets@),
                    _ => false,
                }
            }),
    {
        let ghost m = self@;
        let ghost all = json_fields(*filter);
        let ghost there = stored(*records);
        assert(all.dom() =~= filter@.dom());
        let mut names = entry_names(slots);
        let mut made: Vec<IndexChange> = Vec::new();
        let mut fresh = false;
        let n: usize = filter.len();
        let mut i: usize = 0;
        assert(lookup_start(m, slots@.dom()) =~= (LookupModel {
            drawer: self@,
            names: names@.dom(),
            changes: changes(made@),
            fresh,
            stop: None,
        }));
        while i < n
            invariant
                all == json_fields(*filter),
                all.dom() == filter@.dom(),
                there == stored(*records),
                n == filter.keys().len(),
                lists(filter.keys(), filter@.dom()),
                i <= n,
                m == old(self)@,
                readied(m, slots@.dom(), there, all) == readied_from(
                    (LookupModel {
                        drawer: self@,
                        names: names@.dom(),
                        changes: changes(made@),
                        fresh,
                        stop: None,
                    }),
                    there,
                    all,
                    i as int,
                ),
                forall|j: int|
                    0 <= j < i ==> filter_key(all[#[trigger] filter.keys()[j]]) is Some && (fresh
                        || self@.secondary.dom().contains(filter.keys()[j])),
            decreases n - i,
        {
            let field = filter.key_at(i).as_str();
            let ghost before = self@;
            let (now_fresh, stop) = self.ready_field(
                records,
                &mut names,
                field,
                filter.value_at(i),
                &mut made,
                Ghost(fresh),
            );
            fresh = fresh || now_fresh;
            proof {
                let l = LookupModel {
                    drawer: self@,
                    names: names@.dom(),
                    changes: changes(made@),
                    fresh,
                    stop: stopped(stop),
                };
                assert(readied(m, slots@.dom(), there, all) == readied_from(l, there, all, i + 1));
            }
            match stop {
                Some(Some(e)) => {
                    return CandidateLookup { changes: made, persist: fresh, outcome: Err(e) };
                },
                Some(None) => {
                    return CandidateLookup { changes: made, persist: fresh, outcome: Ok(None) };
                },
                None => {},
            }
            i += 1;
        }
        proof {
            if n == 0 && !(filter@.dom() =~= Set::<Seq<char>>::empty()) {
                let f = choose|f: Seq<char>| filter@.dom().contains(f);
                assert(filter.keys().contains(f));
            }
        }
        if fresh || n == 0 {
            return CandidateLookup { changes: made, persist: fresh, outcome: Ok(None) };
        }
        let candidates = self.candidate_offsets(filter);
        proof {
            if candidates is None {
                let f = choose|f: Seq<char>| #[trigger]
                    filter@.dom().contains(f) && (!self@.secondary.dom().contains(f) || filter_key(
                        filter@[f]@,
                    ) is None);
                assert(filter.keys().contains(f));
                let j = choose|j: int| 0 <= j < filter.keys().len() && filter.keys()[j] == f;
                assert(filter_key(all[filter.keys()[j]]) is Some);
                assert(all[f] == filter@[f]@);
            }
            assert(filter.keys().contains(filter.keys()[0]));
            assert(filter@.dom().contains(filter.keys()[0]));
        }
        CandidateLookup { changes: made, persist: fresh, outcome: Ok(candidates) }
    }
}

/// The model of how making a field ready stopped.
spec fn stopped(stop: Option<Option<Error>>) -> Option<Option<Failure>> {
    match stop {
        None => None,
        Some(None) => Some(None),
        Some(Some(e)) => Some(Some(e@)),
    }
}

/// Where a lookup does not read the records, its result does not depend on them.
pub proof fn law_lookup_without_records(
    m: DrawerModel,
    names: Set<Seq<char>>,
    records: Map<u64, Json>,
    others: Map<u64, Json>,
    filter: Map<Seq<char>, Json>,
)
    requires
        forall|j: int|
            0 <= j < key_order(filter.dom()).len() ==> !#[trigger] reads_records(
                m,
                key_order(filter.dom())[j],
            ),
    ensures
        readied(m, names, records, filter) == readied(m, names, others, filter),
        readied(m, names, records, filter).drawer == m,
{
    lemma_lookup_without_records(lookup_start(m, names), records, others, filter, 0);
}

proof fn lemma_lookup_without_records(
    l: LookupModel,
    records: Map<u64, Json>,
    others: Map<u64, Json>,
    filter: Map<Seq<char>, Json>,
    i: int,
)
    requires
        0 <= i <= key_order(filter.dom()).len(),
        forall|j: int|
            0 <= j < key_order(filter.dom()).len() ==> !#[trigger] reads_records(
                l.drawer,
                key_order(filter.dom())[j],
            ),
    ensures
        readied_from(l, records, filter, i) == readied_from(l, others, filter, i),
        readied_from(l, records, filter, i).drawer == l.drawer,
    decreases key_order(filter.dom()).len() - i,
{
    let fields = key_order(filter.dom());
    if l.stop is None && i < fields.len() {
        assert(!reads_records(l.drawer, fields[i]));
        let next = field_readied(l, records, fields[i], filter[fields[i]]);
        assert(next == field_readied(l, others, fields[i], filter[fields[i]]));
        lemma_lookup_without_records(next, records, others, filter, i + 1);
    }
}

/// What a lookup gives holds every live record that the filter asks for by equality, as long as
/// the indexes agree with the records.
pub proof fn law_candidates_are_complete(
    m: DrawerModel,
    records: Map<u64, Json>,
    filter: Map<Seq<char>, Json>,
    offsets: Seq<u64>,
    key: Seq<char>,
)
    requires
        lists(key_order(m.primary.dom()), m.primary.dom()),
        are_candidates(m, filter, offsets),
        m.primary.dom().contains(key),
        records.dom().contains(m.primary[key]),
        records[m.primary[key]].get_text(m.primary_key) == Some(key),
        lists(key_order(filter.dom()), filter.dom()),
        forall|f: Seq<char>| #[trigger]
            filter.dom().contains(f) ==> m.secondary.dom().contains(f) && same_index(
                m.secondary[f],
                built_index(m, records, f, false)->Ok_0,
            ),
        forall|f: Seq<char>| #[trigger]
            filter.dom().contains(f) ==> filter_key(filter[f]) is Some && record_key(
                records[m.primary[key]],
                f,
            ) == filter_key(filter[f]),
    ensures
        offsets.contains(m.primary[key]),
{
    let offset = m.primary[key];
    let fields = key_order(filter.dom());
    assert forall|j: int| 0 <= j < fields.len() implies field_candidates(
        m,
        #[trigger] fields[j],
        filter[fields[j]],
    ).contains(offset) by {
        let f = fields[j];
        assert(fields.contains(f));
        assert(filter.dom().contains(f));
        let value = filter_key(filter[f])->0;
        law_built_index_is_exact(m, records, f, value, offset);
        let index = built_index(m, records, f, false)->Ok_0;
        assert(holds_value(m, records, f, value, offset, key));
        assert(offsets_at(index, value).contains(offset));
        assert(m.secondary[f].dom().contains(value));
        assert(m.secondary[f][value].contains(offset) <==> index[value].contains(offset));
    }
    assert(candidate_among(m, filter, offset, fields.len() as int));
}

/// The records among the given ones that hold a value in a field, in the same order.
pub open spec fn with_value(
    records: Seq<Json>,
    field: Seq<char>,
    key: Seq<char>,
    n: int,
) -> Seq<Json>
    decreases n,
{
    if n <= 0 {
        Seq::empty()
    } else {
        let before = with_value(records, field, key, n - 1);
        if record_key(records[n - 1], field) == Some(key) {
            before.push(records[n - 1])
        } else {
            before
        }
    }
}

/// The records that hold a value in a field.
pub fn records_with_value(records: &Vec<JsonValue>, field: &str, key: &str) -> (r: Vec<JsonValue>)
    ensures
        jsons(r@) == with_value(jsons(records@), field@, key@, records@.len() as int),
{
    let ghost all = jsons(records@);
    let mut out: Vec<JsonValue> = Vec::new();
    let mut i: usize = 0;
    assert(jsons(out@) =~= Seq::empty());
    while i < records.len()
        invariant
            all == jsons(records@),
            i <= records@.len(),
            jsons(out@) == with_value(all, field@, key@, i as int),
        decreases records@.len() - i,
    {
        let ghost before = out@;
        assert(all[i as int] == records@[i as int]@);
        match record_index_key(&records[i], field) {
            Some(value) => {
                if same(value.as_str(), key) {
                    let copy = records[i].clone();
                    out.push(copy);
                    assert(jsons(out@) =~= jsons(before).push(all[i as int]));
                }
            },
            None => {},
        }
        i += 1;
    }
    out
}

impl Drawer {
    /// Looks a value of an indexed field up. Gives nothing where the field has no index.
    pub(crate) fn lookup_by_secondary_key(
        &mut self,
        records: &StoredRecords,
        slots: &IndexSlots,
        field: &str,
        key: &str,
    ) -> (r: Option<CandidateLookup>)
        ensures
            r is Some == can_satisfy(old(self)@, field@),
            match r {
                None => final(self)@ == old(self)@,
                Some(lookup) => {
                    let filter = map![field@ => Json::Text(key@)];
                    let l = readied(old(self)@, slots@.dom(), stored(*records), filter);
                    &&& final(self)@ == l.drawer
                    &&& changes(lookup.changes@) == l.changes
                    &&& lookup.persist == l.fresh
                    &&& match (l.stop, lookup.outcome) {
                        (Some(Some(f)), Err(e)) => e@ == f,
                        (Some(None), Ok(None)) => true,
                        (None, Ok(None)) => l.fresh,
                        (None, Ok(Some(offsets))) => !l.fresh && are_candidates(
                            l.drawer,
                            filter,
                            offsets@,
                        ),
                        _ => false,
                    }
                },
            },
    {
        if !self.index_can_satisfy_filter(field) {
            return None;
        }
        let mut filter: TextMap<JsonValue> = TextMap::new();
        filter.insert(owned(field), JsonValue::text(key));
        proof {
            assert(json_fields(filter) =~= map![field@ => Json::Text(key@)]);
            assert(filter@.dom().contains(field@));
        }
        Some(self.indexed_candidate_offsets(records, slots, &filter))
    }
}

} // verus!
