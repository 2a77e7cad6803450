//! Records in the earlier format, whose identifiers and pointers carry marks, and their
//! migration to the present one.
use crate::drawer::blocks::DataBlockIndexEntry;
use crate::drawer::replay::is_outdated;
use crate::drawer::{
    logs, offset_json, offsets_index_value, offsets_json, Drawer, DrawerModel, IndexLog, LogModel,
    DRAWER_METADATA_FORMAT_VERSION,
};
use crate::error::{bad_data, Error, Failure};
use crate::fields::{lemma_values_smaller, lists, TextMap};
use crate::pointer::{
    clean_primary_key_token, clean_token, format_pointer, pointer_parts, pointer_text,
    try_parse_pointer,
};
use crate::text::{concat2, opt_str, owned, same, same_opt};
use crate::value::{group_value, json_fields, jsons, Json, JsonValue};
use vstd::prelude::*;

verus! {

/// A text of a record in the present format. An identifier loses its marks; a pointer anywhere
/// else is written anew.
pub open spec fn migrated_text(s: Seq<char>, key: Option<Seq<char>>) -> Seq<char> {
    if key == Some("_id"@) {
        clean_token(s)
    } else {
        match pointer_parts(s) {
            Some((drawer, record_key)) => pointer_text(drawer, record_key),
            None => s,
        }
    }
}

/// A value of a record in the present format, under its key where it has one. Of an array, the
/// first item that is out of date is migrated, and no other.
pub open spec fn migrated(value: Json, key: Option<Seq<char>>) -> Json
    decreases value, 0int,
{
    match value {
        Json::Object(fields) => if fields.dom().finite() {
            Json::Object(
                Map::new(
                    |k: Seq<char>| fields.dom().contains(k),
                    |k: Seq<char>|
                        if fields.dom().contains(k) {
                            migrated(fields[k], Some(k))
                        } else {
                            Json::Null
                        },
                ),
            )
        } else {
            value
        },
        Json::Array(items) => Json::Array(migrated_items(items, 0)),
        Json::Text(s) => Json::Text(migrated_text(s, key)),
        _ => value,
    }
}

/// The items with the first one from position `i` on that is out of date migrated.
pub open spec fn migrated_items(items: Seq<Json>, i: int) -> Seq<Json>
    decreases items, items.len() - i,
{
    if i < 0 || i >= items.len() {
        items
    } else {
        let item = migrated(items[i], None);
        if item != items[i] {
            items.update(i, item)
        } else {
            migrated_items(items, i + 1)
        }
    }
}

/// The value in the present format, and whether it differs from the one that was given.
pub fn migrate_legacy_value(value: &JsonValue, object_key: Option<&str>) -> (r: (JsonValue, bool))
    ensures
        r.0@ == migrated(value@, opt_str(object_key)),
        r.1 == (r.0@ != value@),
    decreases value,
{
    broadcast use group_value;

    match value {
        JsonValue::Object(fields) => {
            let n: usize = fields.len();
            let ghost keys = fields.keys();
            let ghost map = json_fields(*fields);
            assert(map.dom() =~= fields@.dom());
            let mut out: TextMap<JsonValue> = TextMap::new();
            let mut changed = false;
            let mut i: usize = 0;
            while i < n
                invariant
                    *value == JsonValue::Object(*fields),
                    map == json_fields(*fields),
                    map.dom() == fields@.dom(),
                    keys == fields.keys(),
                    lists(keys, fields@.dom()),
                    n == keys.len(),
                    i <= n,
                    forall|k: Seq<char>| #[trigger]
                        out@.dom().contains(k) ==> map.dom().contains(k) && out@[k]@ == migrated(
                            map[k],
                            Some(k),
                        ),
                    forall|j: int| 0 <= j < i ==> out@.dom().contains(#[trigger] keys[j]),
                    changed ==> exists|j: int|
                        0 <= j < i && migrated(map[#[trigger] keys[j]], Some(keys[j])) != map[keys[j]],
                    !changed ==> forall|j: int|
                        0 <= j < i ==> migrated(map[#[trigger] keys[j]], Some(keys[j]))
                            == map[keys[j]],
                decreases n - i,
            {
                let key = fields.key_at(i);
                proof {
                    assert(decreases_to!(*value => value->Object_0));
                    lemma_values_smaller(*fields);
                }
                let (child, child_changed) = migrate_legacy_value(
                    fields.value_at(i),
                    Some(key.as_str()),
                );
                changed = changed || child_changed;
                out.insert(key.clone(), child);
                i += 1;
            }
            proof {
                assert forall|k: Seq<char>| map.dom().contains(k) implies out@.dom().contains(k) by {
                    assert(keys.contains(k));
                }
                let after = json_fields(out);
                let wanted = migrated(value@, opt_str(object_key))->Object_0;
                assert(after =~= wanted);
                if changed {
                    let j = choose|j: int|
                        0 <= j < i && migrated(map[#[trigger] keys[j]], Some(keys[j]))
                            != map[keys[j]];
                    assert(keys.contains(keys[j]));
                    assert(map.dom().contains(keys[j]));
                    assert(after[keys[j]] != map[keys[j]]);
                } else {
                    assert(after =~= map) by {
                        assert forall|k: Seq<char>| map.dom().contains(k) implies after[k] == map[k] by {
                            assert(keys.contains(k));
                        }
                    }
                }
            }
            (JsonValue::Object(out), changed)
        },
        JsonValue::Array(items) => {
            let ghost all = jsons(items@);
            let mut out: Vec<JsonValue> = Vec::new();
            let mut changed = false;
            let mut i: usize = 0;
            while i < items.len()
                invariant
                    *value == JsonValue::Array(*items),
                    all == jsons(items@),
                    i <= items@.len(),
                    out@.len() == i,
                    if changed {
                        jsons(out@) == migrated_items(all, 0).subrange(0, i as int)
                            && migrated_items(all, 0) != all && migrated_items(all, 0).len()
                            == all.len() && forall|j: int|
                            i <= j < all.len() ==> migrated_items(all, 0)[j] == #[trigger] all[j]
                    } else {
                        jsons(out@) == all.subrange(0, i as int) && migrated_items(all, 0)
                            == migrated_items(all, i as int)
                    },
                decreases items@.len() - i,
            {
                assert(all[i as int] == items@[i as int]@);
                assert(decreases_to!(*value => value->Array_0));
                assert(decreases_to!(value->Array_0 => value->Array_0@));
                assert(decreases_to!(items@ => items@[i as int]));
                let ghost before = out@;
                if changed {
                    out.push(items[i].clone());
                    proof {
                        assert(jsons(out@) =~= migrated_items(all, 0).subrange(0, i + 1));
                    }
                } else {
                    let (item, item_changed) = migrate_legacy_value(&items[i], None);
                    let ghost new_item = item@;
                    changed = item_changed;
                    out.push(item);
                    proof {
                        if item_changed {
                            let whole = all.update(i as int, new_item);
                            assert(migrated_items(all, i as int) == whole);
                            assert(whole[i as int] != all[i as int]);
                            assert(jsons(out@).len() == i + 1);
                            assert forall|j: int| 0 <= j <= i implies jsons(out@)[j] == whole[j] by {
                                if j < i {
                                    assert(jsons(before)[j] == all[j]);
                                }
                            }
                            assert(jsons(out@) =~= whole.subrange(0, i + 1));
                        } else {
                            assert(jsons(out@) =~= all.subrange(0, i + 1));
                        }
                    }
                }
                i += 1;
            }
            proof {
                let wanted = migrated_items(all, 0);
                if changed {
                    assert(jsons(out@) =~= wanted);
                } else {
                    assert(jsons(out@) =~= all);
                }
            }
            (JsonValue::Array(out), changed)
        },
        JsonValue::String(s) => {
            let text = if same_opt(object_key, Some("_id")) {
                clean_primary_key_token(s.as_str())
            } else {
                match try_parse_pointer(s.as_str()) {
                    Some((drawer, key)) => format_pointer(drawer.as_str(), key.as_str()),
                    None => s.clone(),
                }
            };
            let changed = !same(text.as_str(), s.as_str());
            (JsonValue::String(text), changed)
        },
        _ => (value.clone(), false),
    }
}

/// What to do with the block of a record that is migrated.
#[derive(Debug, Clone, Copy, PartialEq, Eq, Structural)]
pub enum MigrationPlan {
    /// The record fits into its block, of the given size, and is written over it.
    InPlace { size_class: usize },
    /// The record is written to a new block, and its old one, of the given size, is freed.
    Move { old_size_class: usize },
}

/// The failure of a record without a primary key that is to be migrated.
pub open spec fn unkeyed(primary_key: Seq<char>) -> Failure {
    bad_data("Cannot migrate legacy record without primary key field: "@ + primary_key)
}

/// The primary keys of the two versions of a record, or what is wrong with them.
pub open spec fn migration_keys(m: DrawerModel, old_record: Json, new_record: Json) -> Result<
    (Seq<char>, Seq<char>),
    Failure,
> {
    match (old_record.get_text(m.primary_key), new_record.get_text(m.primary_key)) {
        (Some(old_key), Some(new_key)) => Ok((old_key, new_key)),
        _ => Err(unkeyed(m.primary_key)),
    }
}

/// The drawer once a record was migrated from `offset` to `resolved`.
pub open spec fn record_migrated(
    m: DrawerModel,
    old_key: Seq<char>,
    new_key: Seq<char>,
    offset: u64,
    resolved: u64,
    block: DataBlockIndexEntry,
    plan: MigrationPlan,
) -> DrawerModel {
    let kept = if old_key != new_key {
        m.primary.remove(old_key).remove(clean_token(old_key))
    } else {
        m.primary
    };
    let blocks = if plan is Move {
        m.blocks.remove(offset)
    } else {
        m.blocks
    };
    DrawerModel {
        primary: kept.insert(new_key, resolved),
        blocks: blocks.insert(resolved, block),
        format_version: DRAWER_METADATA_FORMAT_VERSION,
        metadata_dirty: false,
        ..m
    }
}

/// Whether the index entry of the old key is overwritten with a tombstone, rather than followed
/// by one that says that the key is gone.
pub open spec fn buries_entry(old_key: Seq<char>, new_key: Seq<char>) -> bool {
    old_key != new_key && clean_token(old_key) == new_key
}

/// The entries of the index file that a migration writes.
pub open spec fn migration_logs(
    m: DrawerModel,
    old_key: Seq<char>,
    new_key: Seq<char>,
    resolved: u64,
    block: DataBlockIndexEntry,
) -> Seq<LogModel> {
    let gone = LogModel {
        field: m.primary_key,
        key: old_key,
        offset: offsets_json(Seq::empty()),
        block: None,
    };
    let here = LogModel {
        field: m.primary_key,
        key: new_key,
        offset: offset_json(resolved),
        block: Some(block),
    };
    if old_key != new_key && clean_token(old_key) != new_key {
        seq![gone, here]
    } else {
        seq![here]
    }
}

/// What has to be done on disk for a migration: the entry of the old key to overwrite with a
/// tombstone, and the entries to write.
pub struct MigrationEffects {
    pub buries_entry: bool,
    pub index_logs: Vec<IndexLog>,
}

impl Drawer {
    pub fn needs_format_migration(&self) -> (r: bool)
        ensures
            r == is_outdated(self@.format_version),
    {
        self.metadata_format_version < DRAWER_METADATA_FORMAT_VERSION
    }

    /// The version of a record to store in its place, where the drawer is in the earlier format
    /// and the record is out of date.
    pub fn migrate_legacy_record_value(&self, record: &JsonValue) -> (r: Option<JsonValue>)
        ensures
            match r {
                Some(new_record) => is_outdated(self@.format_version) && new_record@ == migrated(
                    record@,
                    Some(self@.primary_key),
                ) && new_record@ != record@,
                None => !is_outdated(self@.format_version) || migrated(
                    record@,
                    Some(self@.primary_key),
                ) == record@,
            },
    {
        if !self.needs_format_migration() {
            return None;
        }
        let (new_record, changed) = migrate_legacy_value(record, Some(self.primary_key.as_str()));
        if changed {
            Some(new_record)
        } else {
            None
        }
    }

    /// Where to write a migrated record of `payload_len` bytes, and under which keys.
    pub fn plan_migration(
        &self,
        old_record: &JsonValue,
        new_record: &JsonValue,
        old_block: Option<(u64, DataBlockIndexEntry)>,
        payload_len: usize,
    ) -> (r: Result<(MigrationPlan, String, String), Error>)
        ensures
            match r {
                Ok((plan, old_key, new_key)) => {
                    &&& migration_keys(self@, old_record@, new_record@) == Ok::<_, Failure>(
                        (old_key@, new_key@),
                    )
                    &&& old_block is Some
                    &&& plan == (if payload_len <= (old_block->0).1.size_class {
                        MigrationPlan::InPlace { size_class: (old_block->0).1.size_class }
                    } else {
                        MigrationPlan::Move { old_size_class: (old_block->0).1.size_class }
                    })
                },
                Err(e) => match migration_keys(self@, old_record@, new_record@) {
                    Ok(_) => old_block is None && e@ == bad_data(
                        "Cannot migrate legacy record because its block metadata is missing"@,
                    ),
                    Err(f) => e@ == f,
                },
            },
    {
        let old_key = match old_record.get_str(self.primary_key.as_str()) {
            Some(key) => owned(key),
            None => {
                return Err(
                    Error::invalid_data(
                        concat2(
                            "Cannot migrate legacy record without primary key field: ",
                            self.primary_key.as_str(),
                        ),
                    ),
                );
            },
        };
        let new_key = match new_record.get_str(self.primary_key.as_str()) {
            Some(key) => owned(key),
            None => {
                return Err(
                    Error::invalid_data(
                        concat2(
                            "Cannot migrate legacy record without primary key field: ",
                            self.primary_key.as_str(),
                        ),
                    ),
                );
            },
        };
        match old_block {
            Some((_, block)) => {
                let plan = if payload_len <= block.size_class {
                    MigrationPlan::InPlace { size_class: block.size_class }
                } else {
                    MigrationPlan::Move { old_size_class: block.size_class }
                };
                Ok((plan, old_key, new_key))
            },
            None => Err(
                Error::invalid_data(
                    owned("Cannot migrate legacy record because its block metadata is missing"),
                ),
            ),
        }
    }

    /// Takes in a record that was migrated from `offset` to `resolved`.
    pub fn apply_migration(
        &mut self,
        old_key: &str,
        new_key: &str,
        offset: u64,
        resolved: u64,
        block: DataBlockIndexEntry,
        plan: MigrationPlan,
    ) -> (r: MigrationEffects)
        ensures
            final(self)@ == record_migrated(
                old(self)@,
                old_key@,
                new_key@,
                offset,
                resolved,
                block,
                plan,
            ),
            r.buries_entry == buries_entry(old_key@, new_key@),
            logs(r.index_logs@) == migration_logs(
                old(self)@,
                old_key@,
                new_key@,
                resolved,
                block,
            ),
    {
        let ghost m = self@;
        if matches!(plan, MigrationPlan::Move { .. }) {
            self.data_block_index.remove(offset);
        }
        let mut index_logs: Vec<IndexLog> = Vec::new();
        let mut buried = false;
        if !same(old_key, new_key) {
            let clean = clean_primary_key_token(old_key);
            if same(clean.as_str(), new_key) {
                buried = true;
            } else {
                let none: Vec<u64> = Vec::new();
                index_logs.push(
                    IndexLog {
                        field: self.primary_key.clone(),
                        key: owned(old_key),
                        offset: offsets_index_value(&none),
                        block: None,
                    },
                );
            }
            self.primary_memory_index.remove(old_key);
            self.primary_memory_index.remove(clean.as_str());
        }
        index_logs.push(
            IndexLog {
                field: self.primary_key.clone(),
                key: owned(new_key),
                offset: JsonValue::unsigned(resolved),
                block: Some(block),
            },
        );
        self.primary_memory_index.insert(owned(new_key), resolved);
        self.data_block_index.insert(resolved, block);
        self.metadata_format_version = DRAWER_METADATA_FORMAT_VERSION;
        self.metadata_dirty = false;
        proof {
            assert(self@ =~= record_migrated(
                m,
                old_key@,
                new_key@,
                offset,
                resolved,
                block,
                plan,
            ));
            assert(logs(index_logs@) =~= migration_logs(m, old_key@, new_key@, resolved, block));
        }
        MigrationEffects { buries_entry: buried, index_logs }
    }
}

/// A migrated record is found under its new key.
pub proof fn law_migrated_record_is_found(
    m: DrawerModel,
    old_key: Seq<char>,
    new_key: Seq<char>,
    offset: u64,
    resolved: u64,
    block: DataBlockIndexEntry,
    plan: MigrationPlan,
)
    ensures
        ({
            let after = record_migrated(m, old_key, new_key, offset, resolved, block, plan);
            &&& after.primary.dom().contains(new_key)
            &&& after.primary[new_key] == resolved
            &&& old_key != new_key ==> !after.primary.dom().contains(old_key)
            &&& !is_outdated(after.format_version)
        }),
{
}

} // verus!
