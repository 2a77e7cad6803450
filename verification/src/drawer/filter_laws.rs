//! What a filter finds in a drawer.
use crate::drawer::contents::live_set;
use crate::drawer::indexing::{
    are_candidates, field_readied, lookup_start, readied, readied_from, LookupModel,
};
use crate::drawer::lookup::{has_asked, is_live_at, is_trusted, law_lookup_finds_the_records};
use crate::drawer::migration::{
    are_filtered, are_read, lemma_only_read, read_first, MigrationReads, MigrationWrite,
    SecondaryFound,
};
use crate::drawer::reading::{lemma_live_offsets, lemma_records_at};
use crate::drawer::records::offset_of;
use crate::drawer::replay::is_outdated;
use crate::drawer::DrawerModel;
use crate::fields::key_order;
use crate::offsets::offset_order;
use crate::value::{jsons, Json};
use vstd::prelude::*;

verus! {

proof fn lemma_readied_keeps(
    l: LookupModel,
    records: Map<u64, Json>,
    filter: Map<Seq<char>, Json>,
    i: int,
)
    ensures
        readied_from(l, records, filter, i).drawer.primary == l.drawer.primary,
        readied_from(l, records, filter, i).drawer.primary_key == l.drawer.primary_key,
        readied_from(l, records, filter, i).drawer.format_version == l.drawer.format_version,
    decreases key_order(filter.dom()).len() - i,
{
    let fields = key_order(filter.dom());
    if l.stop is None && i < fields.len() {
        lemma_readied_keeps(
            field_readied(l, records, fields[i], filter[fields[i]]),
            records,
            filter,
            i + 1,
        );
    }
}

/// A filter finds every live record that has in each field what it asks for, through the indexes
/// or by looking at all records; only where an index cannot be made does it fail.
pub proof fn law_filter_misses_no_record(
    m: DrawerModel,
    names: Set<Seq<char>>,
    held: Map<u64, Json>,
    filter: Map<Seq<char>, Json>,
    writes: Map<u64, MigrationWrite>,
    after: (DrawerModel, Map<u64, Json>),
    r: SecondaryFound,
    o: u64,
)
    requires
        m.primary.dom().finite(),
        filter.dom().finite(),
        !is_outdated(m.format_version),
        forall|f: Seq<char>| #[trigger] filter.dom().contains(f) ==> is_trusted(m, held, f),
        are_filtered(readied(m, names, held, filter), held, filter, writes, after, r),
        is_live_at(m, held, o),
        forall|f: Seq<char>| #[trigger]
            filter.dom().contains(f) ==> has_asked(held[o], f, filter[f]),
    ensures
        match r.outcome {
            Ok(found) => jsons(found@).contains(held[o]),
            Err(_) => readied(m, names, held, filter).stop matches Some(Some(_)),
        },
        after.1 == held,
        after.0.primary == m.primary,
{
    let l = readied(m, names, held, filter);
    lemma_readied_keeps(lookup_start(m, names), held, filter, 0);
    match l.stop {
        Some(Some(_)) => {},
        _ => {
            if l.stop is Some || l.fresh || filter.dom() =~= Set::<Seq<char>>::empty() {
                let offsets = offset_order(live_set(l.drawer));
                lemma_live_offsets(l.drawer);
                let key = held[o].get_text(m.primary_key)->0;
                assert(offset_of(l.drawer, key) == Some(o));
                assert(live_set(l.drawer).contains(o));
                assert(offsets.contains(o));
                let i = choose|i: int| 0 <= i < offsets.len() && offsets[i] == o;
                lemma_records_at(held, offsets, offsets.len() as int, held[o]);
                assert(held.dom().contains(offsets[i]) && held[offsets[i]] == held[o]);
            } else {
                let offsets = choose|offsets: Seq<u64>| #[trigger]
                    are_candidates(l.drawer, filter, offsets) && are_read(
                        read_first(l.drawer, held, offsets, writes, offsets.len() as int),
                        after,
                        MigrationReads { reads: r.reads, outcome: r.outcome },
                    );
                assert(filter.dom().len() > 0) by {
                    if filter.dom().len() == 0 {
                        assert(filter.dom() =~= Set::empty());
                    }
                }
                law_lookup_finds_the_records(m, names, held, filter, offsets, o);
                let i = choose|i: int| 0 <= i < offsets.len() && offsets[i] == o;
                lemma_only_read(l.drawer, held, offsets, writes, offsets.len() as int);
                lemma_records_at(held, offsets, offsets.len() as int, held[o]);
                assert(held.dom().contains(offsets[i]) && held[offsets[i]] == held[o]);
            }
        },
    }
}

} // verus!
