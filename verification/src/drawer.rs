//! Drawers: the collections of records, their indexes, rules and blocks.
use crate::drawer::blocks::DataBlockIndexEntry;
use crate::drawer::index::{group_index, index_model, FieldIndex};
use crate::fields::TextMap;
use crate::offsets::OffsetMap;
use crate::text::{holds, texts};
use crate::value::{group_value, json_fields, jsons, opt_value, Json, JsonValue, Number};
use vstd::prelude::*;

pub mod acceptance;
pub mod batch_laws;
pub mod blocks;
pub mod bulk;
pub mod contents;
pub mod effect_laws;
pub mod filter_laws;
pub mod index;
pub mod index_file;
pub mod index_laws;
pub mod indexing;
pub mod laws;
pub mod legacy;
pub mod lifetime;
pub mod lookup;
pub mod migration;
pub mod packing;
pub mod reading;
pub mod records;
pub mod relations;
pub mod reopening;
pub mod replay;
pub mod replay_laws;
pub mod rule_laws;
pub mod rules;
pub mod schema;
pub mod sessions;
pub mod slot_laws;
pub mod slots;
pub mod snapshot_laws;
pub mod space;
pub mod vacuum;

verus! {

pub const DRAWER_METADATA_FORMAT_VERSION: u8 = 1;

/// A drawer: what is held in memory of its records, indexes and rules.
pub struct Drawer {
    pub name: String,
    pub primary_key: String,
    pub unique_constraints: Vec<String>,
    /// The offset of each live record, by its primary key.
    pub primary_memory_index: TextMap<u64>,
    /// For each indexed field, the offsets of the records by the value they hold in it.
    pub secondary_memory_index: TextMap<FieldIndex>,
    /// The query indexes that were held against the records since the drawer was opened.
    pub validated_secondary_indexes: TextMap<()>,
    /// The generation at which each query index was last written.
    pub materialized_secondary_indexes: TextMap<u64>,
    pub secondary_index_generation: u64,
    pub data_block_index: OffsetMap<DataBlockIndexEntry>,
    pub relationship_constraints: TextMap<JsonValue>,
    pub delete_rules: TextMap<JsonValue>,
    pub cascade_delete_rules: TextMap<bool>,
    pub schema: Option<JsonValue>,
    pub record_count: usize,
    pub metadata_dirty: bool,
    pub metadata_format_version: u8,
}

/// The model of a drawer.
#[verifier::ext_equal]
pub struct DrawerModel {
    pub name: Seq<char>,
    pub primary_key: Seq<char>,
    pub unique: Seq<Seq<char>>,
    pub primary: Map<Seq<char>, u64>,
    pub secondary: Map<Seq<char>, Map<Seq<char>, Seq<u64>>>,
    pub validated: Set<Seq<char>>,
    pub materialized: Map<Seq<char>, u64>,
    pub generation: u64,
    pub blocks: Map<u64, DataBlockIndexEntry>,
    pub relationships: Map<Seq<char>, Json>,
    pub delete_rules: Map<Seq<char>, Json>,
    pub cascade: Map<Seq<char>, bool>,
    pub schema: Option<Json>,
    pub record_count: usize,
    pub metadata_dirty: bool,
    pub format_version: u8,
}

impl View for Drawer {
    type V = DrawerModel;

    open spec fn view(&self) -> DrawerModel {
        DrawerModel {
            name: self.name@,
            primary_key: self.primary_key@,
            unique: texts(self.unique_constraints@),
            primary: self.primary_memory_index@,
            secondary: index_model(self.secondary_memory_index),
            validated: self.validated_secondary_indexes@.dom(),
            materialized: self.materialized_secondary_indexes@,
            generation: self.secondary_index_generation,
            blocks: self.data_block_index@,
            relationships: json_fields(self.relationship_constraints),
            delete_rules: json_fields(self.delete_rules),
            cascade: self.cascade_delete_rules@,
            schema: opt_value(self.schema),
            record_count: self.record_count,
            metadata_dirty: self.metadata_dirty,
            format_version: self.metadata_format_version,
        }
    }
}

/// An entry to be written to the index file.
pub struct IndexLog {
    pub field: String,
    pub key: String,
    pub offset: JsonValue,
    pub block: Option<DataBlockIndexEntry>,
}

/// The model of an entry to be written to the index file.
pub struct LogModel {
    pub field: Seq<char>,
    pub key: Seq<char>,
    pub offset: Json,
    pub block: Option<DataBlockIndexEntry>,
}

impl View for IndexLog {
    type V = LogModel;

    open spec fn view(&self) -> LogModel {
        LogModel {
            field: self.field@,
            key: self.key@,
            offset: self.offset@,
            block: self.block,
        }
    }
}

/// The models of a sequence of entries.
pub open spec fn logs(entries: Seq<IndexLog>) -> Seq<LogModel> {
    Seq::new(entries.len(), |i: int| entries[i]@)
}

/// The JSON number of an offset.
pub open spec fn offset_json(offset: u64) -> Json {
    Json::Number(Number::PosInt(offset))
}

/// The JSON array of a list of offsets.
pub open spec fn offsets_json(offsets: Seq<u64>) -> Json {
    Json::Array(Seq::new(offsets.len(), |i: int| offset_json(offsets[i])))
}

pub fn offsets_index_value(offsets: &Vec<u64>) -> (r: JsonValue)
    ensures
        r@ == offsets_json(offsets@),
{
    let mut out: Vec<JsonValue> = Vec::new();
    let mut i: usize = 0;
    while i < offsets.len()
        invariant
            i <= offsets@.len(),
            out@.len() == i,
            forall|k: int| 0 <= k < i ==> out@[k]@ == offset_json(offsets@[k]),
        decreases offsets@.len() - i,
    {
        out.push(JsonValue::unsigned(offsets[i]));
        i += 1;
    }
    let r = JsonValue::array(out);
    proof {
        assert(jsons(out@) =~= Seq::new(offsets@.len(), |i: int| offset_json(offsets@[i])));
    }
    r
}

/// The fields that a section of the schema's extension declares, in ascending order.
pub open spec fn extension_fields(schema: Option<Json>, bucket: Seq<char>) -> Seq<Seq<char>> {
    match schema {
        Some(s) => match s.get("x-wardrobe-cli"@) {
            Some(extension) => match extension.get(bucket) {
                Some(fields) => fields.keys(),
                None => Seq::empty(),
            },
            None => Seq::empty(),
        },
        None => Seq::empty(),
    }
}

pub fn schema_extension_fields(schema: &Option<JsonValue>, bucket: &str) -> (r: Vec<String>)
    ensures
        texts(r@) == extension_fields(opt_value(*schema), bucket@),
{
    let mut out: Vec<String> = Vec::new();
    let found = match schema {
        Some(s) => match s.get("x-wardrobe-cli") {
            Some(extension) => extension.get(bucket),
            None => None,
        },
        None => None,
    };
    match found {
        Some(section) => match section {
            JsonValue::Object(fields) => {
                broadcast use group_value;

                let n: usize = fields.len();
                let mut i: usize = 0;
                while i < n
                    invariant
                        n == fields.keys().len(),
                        i <= n,
                        texts(out@) == fields.keys().subrange(0, i as int),
                    decreases n - i,
                {
                    let ghost before = out@;
                    out.push(fields.key_at(i).clone());
                    i += 1;
                    assert(texts(out@) =~= texts(before).push(fields.keys()[i - 1]));
                    assert(fields.keys().subrange(0, i as int) =~= fields.keys().subrange(
                        0,
                        i - 1,
                    ).push(fields.keys()[i - 1]));
                }
                proof {
                    assert(json_fields(*fields).dom() =~= fields@.dom());
                    assert(texts(out@) =~= fields.keys());
                }
            },
            _ => {
                assert(texts(out@) =~= Seq::empty());
            },
        },
        None => {
            assert(texts(out@) =~= Seq::empty());
        },
    }
    out
}

/// The fields whose query index goes stale when a record changes: those that the schema
/// declares as indexes and that no unique constraint keeps up to date.
pub open spec fn query_fields(m: DrawerModel) -> Set<Seq<char>> {
    Set::new(
        |f: Seq<char>| extension_fields(m.schema, "indexes"@).contains(f) && !m.unique.contains(f),
    )
}

/// The drawer once its materialized query indexes are dropped. Where one was there the
/// generation moves on, and the metadata has been written.
pub open spec fn invalidated(m: DrawerModel) -> DrawerModel {
    if m.materialized.dom() =~= Set::<Seq<char>>::empty() {
        m
    } else {
        let changed = drops_index(m);
        DrawerModel {
            generation: if changed {
                next_generation(m.generation)
            } else {
                m.generation
            },
            metadata_dirty: m.metadata_dirty && !changed,
            ..without_indexes(m, query_fields(m))
        }
    }
}

/// The drawer without the query indexes of the fields.
pub open spec fn without_indexes(m: DrawerModel, gone: Set<Seq<char>>) -> DrawerModel {
    DrawerModel {
        materialized: m.materialized.remove_keys(gone),
        secondary: m.secondary.remove_keys(gone),
        validated: m.validated.difference(gone),
        ..m
    }
}

/// Whether the drawer holds an index of the field, or has it down as written.
pub open spec fn indexed(m: DrawerModel, field: Seq<char>) -> bool {
    m.materialized.dom().contains(field) || m.secondary.dom().contains(field)
}

pub open spec fn any_indexed(m: DrawerModel, fields: Set<Seq<char>>) -> bool {
    exists|f: Seq<char>| #[trigger] fields.contains(f) && indexed(m, f)
}

/// Whether dropping the materialized query indexes drops one.
pub open spec fn drops_index(m: DrawerModel) -> bool {
    &&& !(m.materialized.dom() =~= Set::<Seq<char>>::empty())
    &&& any_indexed(m, query_fields(m))
}

/// The generation after `generation`; the last one stays.
pub open spec fn next_generation(generation: u64) -> u64 {
    if generation == u64::MAX {
        generation
    } else {
        (generation + 1) as u64
    }
}

impl Drawer {
    pub fn query_index_fields(&self) -> (r: Vec<String>)
        ensures
            texts(r@) == extension_fields(self@.schema, "indexes"@),
    {
        schema_extension_fields(&self.schema, "indexes")
    }

    pub fn schema_has_index(&self, field_name: &str) -> (r: bool)
        ensures
            r == extension_fields(self@.schema, "indexes"@).contains(field_name@),
    {
        let fields = self.query_index_fields();
        holds(&fields, field_name)
    }

    /// Drops the materialized query indexes; says whether the metadata has to be written.
    pub fn invalidate_materialized_query_indexes(&mut self) -> (persist: bool)
        ensures
            final(self)@ == invalidated(old(self)@),
            persist == drops_index(old(self)@),
    {
        broadcast use group_index;

        if self.materialized_secondary_indexes.is_empty() {
            return false;
        }
        let fields = self.query_index_fields();
        let ghost m = self@;
        let ghost all = texts(fields@);
        let mut changed = false;
        let mut i: usize = 0;
        assert(m.materialized.remove_keys(Set::empty()) =~= m.materialized);
        assert(m.secondary.remove_keys(Set::empty()) =~= m.secondary);
        assert(m.validated.difference(Set::empty()) =~= m.validated);
        while i < fields.len()
            invariant
                i <= fields@.len(),
                all == texts(fields@),
                m == old(self)@,
                self@ == without_indexes(m, gone_fields(all, m.unique, i as int)),
                changed == any_indexed(m, gone_fields(all, m.unique, i as int)),
            decreases fields@.len() - i,
        {
            let ghost name = fields@[i as int]@;
            let ghost was = gone_fields(all, m.unique, i as int);
            let ghost now = gone_fields(all, m.unique, i + 1);
            let ghost before = self@;
            let ghost changed_before = changed;
            assert(all[i as int] == name);
            if !holds(&self.unique_constraints, fields[i].as_str()) {
                assert(now == was.insert(name));
                let field = fields[i].as_str();
                let ghost kept = self.secondary_memory_index;
                let from_materialized = self.materialized_secondary_indexes.remove(field).is_some();
                let from_secondary = self.secondary_memory_index.remove(field).is_some();
                self.validated_secondary_indexes.remove(field);
                changed = changed || from_materialized || from_secondary;
                proof {
                    crate::drawer::index::lemma_index_remove(
                        kept,
                        self.secondary_memory_index,
                        name,
                    );
                    assert(self@.materialized =~= m.materialized.remove_keys(now));
                    assert(self@.secondary =~= m.secondary.remove_keys(now));
                    assert(self@.validated =~= m.validated.difference(now));
                    assert(now.contains(name));
                    assert(before.secondary.dom().contains(name) == kept@.dom().contains(name));
                    assert(from_secondary == before.secondary.dom().contains(name));
                    assert(from_materialized == before.materialized.dom().contains(name));
                    if was.contains(name) && indexed(m, name) {
                        assert(any_indexed(m, was));
                    }
                    if from_materialized || from_secondary {
                        assert(indexed(m, name));
                    }
                    if changed_before {
                        let f = choose|f: Seq<char>| #[trigger] was.contains(f) && indexed(m, f);
                        assert(now.contains(f) && indexed(m, f));
                    }
                    if any_indexed(m, now) {
                        let f = choose|f: Seq<char>| #[trigger] now.contains(f) && indexed(m, f);
                        if f != name {
                            assert(was.contains(f) && indexed(m, f));
                        }
                    }
                }
            }
            i += 1;
        }
        proof {
            lemma_gone_fields(all, m.unique, i as int);
            assert(gone_fields(all, m.unique, i as int) =~= query_fields(m)) by {
                assert(all.subrange(0, i as int) =~= all);
            }
        }
        if changed {
            if self.secondary_index_generation < u64::MAX {
                self.secondary_index_generation = self.secondary_index_generation + 1;
            }
            self.metadata_dirty = false;
        }
        changed
    }
}

/// The first `n` fields of a list that have no unique constraint.
spec fn gone_fields(all: Seq<Seq<char>>, unique: Seq<Seq<char>>, n: int) -> Set<Seq<char>>
    decreases n,
{
    if n <= 0 {
        Set::empty()
    } else if unique.contains(all[n - 1]) {
        gone_fields(all, unique, n - 1)
    } else {
        gone_fields(all, unique, n - 1).insert(all[n - 1])
    }
}

proof fn lemma_gone_fields(all: Seq<Seq<char>>, unique: Seq<Seq<char>>, n: int)
    requires
        0 <= n <= all.len(),
    ensures
        forall|f: Seq<char>| #[trigger]
            gone_fields(all, unique, n).contains(f) <==> all.subrange(0, n).contains(f)
                && !unique.contains(f),
    decreases n,
{
    if n > 0 {
        lemma_gone_fields(all, unique, n - 1);
        let longer = all.subrange(0, n);
        let shorter = all.subrange(0, n - 1);
        assert forall|f: Seq<char>| #[trigger]
            gone_fields(all, unique, n).contains(f) <==> longer.contains(f) && !unique.contains(f) by {
            assert(gone_fields(all, unique, n - 1).contains(f) <==> shorter.contains(f)
                && !unique.contains(f));
            if shorter.contains(f) {
                let k = choose|k: int| 0 <= k < shorter.len() && shorter[k] == f;
                assert(longer[k] == f);
            }
            if longer.contains(f) && f != all[n - 1] {
                let k = choose|k: int| 0 <= k < longer.len() && longer[k] == f;
                assert(shorter[k] == f);
            }
            assert(longer[n - 1] == all[n - 1]);
        }
    }
}

} // verus!
