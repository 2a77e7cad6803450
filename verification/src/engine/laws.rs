//! What holds of every operation: which records it is about, and what becomes of them.
use crate::command::model::{is_empty_object, FilterModel, OperationOptions, ReturnShape};
use crate::command::results::{PaginationMetadata, ReadResult};
use crate::engine::plans::{
    answers, count_plan, delete_plan, fills_in, group_at, grouped_from, query_update, query_upsert,
    read_plan, record_pointers, upsert_plan, CountPlanModel, DeletePlanModel, QueryUpsert,
    ReadPlanModel, UpsertPlanModel,
};
use crate::engine::selection::{
    pointer_of_record, read_shape, resolved, resolved_from, selected, with_filter, with_filters,
    ReturnShapeResolution, SelectionModel, TargetModel,
};
use crate::engine::upsert::{record_over, record_target, upsert_context, ContextModel};
use crate::error::{ErrorKind, Failure};
use crate::pointer::{clean_token, names_drawer_only, pointer_parts};
use crate::text::{texts, without_leading};
use crate::value::{jsons, Json, JsonValue};
use vstd::prelude::*;

verus! {

/// Whether a pointer is that of a target: the one that was given whole, or the drawer of the
/// selection and the key put together.
pub open spec fn points_at(
    pointer: Seq<char>,
    target: TargetModel,
    drawer: Option<Seq<char>>,
) -> bool {
    match target {
        TargetModel::Full(whole) => pointer == whole,
        TargetModel::Local(key) => drawer matches Some(name) && pointer == "@"@ + without_leading(
            name,
            '@',
        ) + ":"@ + clean_token(key),
    }
}

/// Whether pointers are those of targets, one for each and in the same order.
pub open spec fn point_at_all(
    pointers: Seq<Seq<char>>,
    all: Seq<TargetModel>,
    drawer: Option<Seq<char>>,
) -> bool {
    &&& pointers.len() == all.len()
    &&& forall|i: int| 0 <= i < all.len() ==> points_at(pointers[i], #[trigger] all[i], drawer)
}

proof fn lemma_resolved(
    drawer: Option<Seq<char>>,
    all: Seq<TargetModel>,
    done: Seq<Seq<char>>,
    i: int,
)
    requires
        0 <= i <= all.len(),
        point_at_all(done, all.take(i), drawer),
    ensures
        match resolved_from(drawer, all, done, i) {
            Ok(pointers) => point_at_all(pointers, all, drawer),
            Err(f) => drawer is None && exists|j: int|
                i <= j < all.len() && (#[trigger] all[j]) is Local,
        },
        drawer is Some ==> resolved_from(drawer, all, done, i) is Ok,
        (forall|j: int| i <= j < all.len() ==> (#[trigger] all[j]) is Full) ==> resolved_from(
            drawer,
            all,
            done,
            i,
        ) is Ok,
    decreases all.len() - i,
{
    if i < all.len() {
        let next = all.take(i + 1);
        assert(all[i] == next[i]);
        assert forall|j: int| 0 <= j < i implies #[trigger] next[j] == all.take(i)[j] by {}
        match all[i] {
            TargetModel::Full(pointer) => {
                lemma_resolved(drawer, all, done.push(pointer), i + 1);
            },
            TargetModel::Local(key) => match drawer {
                Some(name) => {
                    let pointer = crate::pointer::pointer_text(name, key);
                    lemma_resolved(drawer, all, done.push(pointer), i + 1);
                },
                None => {},
            },
        }
    } else {
        assert(all.take(i) =~= all);
    }
}

/// The resolved pointers of a selection are as many as its targets, and each is that of its
/// target. They are found unless a target is a mere key and no drawer was selected.
pub proof fn law_every_target_is_resolved(s: SelectionModel)
    ensures
        match resolved(s) {
            Ok(pointers) => point_at_all(pointers, s.pointers, s.drawer),
            Err(f) => f.kind == ErrorKind::InvalidInput,
        },
        resolved(s) is Err <==> s.drawer is None && exists|i: int|
            0 <= i < s.pointers.len() && (#[trigger] s.pointers[i]) is Local,
{
    lemma_resolved(s.drawer, s.pointers, Seq::empty(), 0);
    lemma_resolved_kind(s.drawer, s.pointers, Seq::empty(), 0);
}

proof fn lemma_resolved_kind(
    drawer: Option<Seq<char>>,
    all: Seq<TargetModel>,
    done: Seq<Seq<char>>,
    i: int,
)
    ensures
        resolved_from(drawer, all, done, i) matches Err(f) ==> f.kind == ErrorKind::InvalidInput,
        resolved_from(drawer, all, done, i) is Ok && drawer is None ==> forall|j: int|
            0 <= i <= j < all.len() ==> (#[trigger] all[j]) is Full,
    decreases all.len() - i,
{
    if 0 <= i < all.len() {
        match all[i] {
            TargetModel::Full(pointer) => {
                lemma_resolved_kind(drawer, all, done.push(pointer), i + 1);
            },
            TargetModel::Local(key) => match drawer {
                Some(name) => {
                    let pointer = crate::pointer::pointer_text(name, key);
                    lemma_resolved_kind(drawer, all, done.push(pointer), i + 1);
                },
                None => {},
            },
        }
    }
}

/// A read, a count and a delete of pointers are about every pointer of the selection, in order;
/// without pointers they are about what the query finds in the drawer, and where there is no
/// query, about the whole drawer, which is never deleted so.
pub proof fn law_operations_are_about_the_selection(s: SelectionModel)
    ensures
        match read_plan(s) {
            Ok(ReadPlanModel::Pointers(pointers)) => s.pointers.len() > 0 && point_at_all(
                pointers,
                s.pointers,
                s.drawer,
            ),
            Ok(ReadPlanModel::Query { drawer, query }) => s.pointers.len() == 0 && s.drawer == Some(
                drawer,
            ) && s.query == Some(query),
            Ok(ReadPlanModel::All { drawer }) => s.pointers.len() == 0 && s.drawer == Some(drawer)
                && s.query is None,
            Err(f) => s.drawer is None && f.kind == ErrorKind::InvalidInput,
        },
        match count_plan(s) {
            Ok(CountPlanModel::Pointers(pointers)) => s.pointers.len() > 0 && point_at_all(
                pointers,
                s.pointers,
                s.drawer,
            ),
            Ok(CountPlanModel::Drawer { drawer, query }) => s.pointers.len() == 0 && s.drawer
                == Some(drawer) && s.query == query,
            Err(f) => s.drawer is None && f.kind == ErrorKind::InvalidInput,
        },
        match delete_plan(s) {
            Ok(DeletePlanModel::Pointers(pointers)) => s.pointers.len() > 0 && point_at_all(
                pointers,
                s.pointers,
                s.drawer,
            ),
            Ok(DeletePlanModel::Query { drawer, query }) => s.pointers.len() == 0 && s.drawer
                == Some(drawer) && s.query == Some(query),
            Err(f) => (s.drawer is None || s.pointers.len() == 0 && s.query is None) && f.kind
                == ErrorKind::InvalidInput,
        },
        s.pointers.len() > 0 && s.drawer is Some ==> read_plan(s) is Ok && count_plan(s) is Ok
            && delete_plan(s) is Ok,
        s.pointers.len() > 0 && (forall|i: int|
            0 <= i < s.pointers.len() ==> (#[trigger] s.pointers[i]) is Full) ==> read_plan(s) is Ok
            && count_plan(s) is Ok && delete_plan(s) is Ok,
        s.pointers.len() == 0 ==> (read_plan(s) is Ok <==> s.drawer is Some) && (count_plan(s) is Ok
            <==> s.drawer is Some) && (delete_plan(s) is Ok <==> s.drawer is Some && s.query is Some),
{
    law_every_target_is_resolved(s);
}

/// Whether a selection holds what a filter asks for: the drawer, the query and the pointers that
/// it names.
pub open spec fn is_heard(t: SelectionModel, filter: FilterModel) -> bool
    decreases filter, 0int,
{
    match filter {
        FilterModel::Nothing => true,
        FilterModel::Drawer(name) => t.drawer == Some(without_leading(name, '@')),
        FilterModel::Query(query) => query is Null || is_empty_object(query) || t.query == Some(
            query,
        ),
        FilterModel::Pointer(pointer) => if names_drawer_only(pointer) {
            t.drawer == Some(without_leading(without_leading(pointer, '@'), '@'))
        } else {
            match pointer_parts(pointer) {
                Some((drawer, key)) => t.drawer == Some(without_leading(drawer, '@'))
                    && t.pointers.contains(
                    TargetModel::Full(
                        "@"@ + without_leading(drawer, '@') + ":"@ + clean_token(key),
                    ),
                ),
                None => t.pointers.contains(TargetModel::Local(pointer)),
            }
        },
        FilterModel::Many(filters) => are_heard(t, filters, 0),
    }
}

/// Whether a selection holds what the filters from the `i`-th on ask for.
pub open spec fn are_heard(t: SelectionModel, filters: Seq<FilterModel>, i: int) -> bool
    decreases filters, filters.len() - i,
{
    i < 0 || i >= filters.len() || is_heard(t, filters[i]) && are_heard(t, filters, i + 1)
}

/// How many records a filter names by pointers.
pub open spec fn records_named(filter: FilterModel) -> nat
    decreases filter, 0int,
{
    match filter {
        FilterModel::Pointer(pointer) => if names_drawer_only(pointer) {
            0
        } else {
            1
        },
        FilterModel::Many(filters) => all_records_named(filters, 0),
        _ => 0,
    }
}

/// How many records the filters from the `i`-th on name by pointers.
pub open spec fn all_records_named(filters: Seq<FilterModel>, i: int) -> nat
    decreases filters, filters.len() - i,
{
    if i < 0 || i >= filters.len() {
        0
    } else {
        records_named(filters[i]) + all_records_named(filters, i + 1)
    }
}

/// Whether a selection is another one with more in it.
pub open spec fn grows_to(s: SelectionModel, t: SelectionModel) -> bool {
    &&& s.drawer is Some ==> t.drawer == s.drawer
    &&& s.query is Some ==> t.query == s.query
    &&& s.pointers.len() <= t.pointers.len()
    &&& t.pointers.take(s.pointers.len() as int) == s.pointers
}

proof fn lemma_grows_on(s: SelectionModel, t: SelectionModel, u: SelectionModel)
    requires
        grows_to(s, t),
        grows_to(t, u),
    ensures
        grows_to(s, u),
{
    assert(u.pointers.take(s.pointers.len() as int) =~= s.pointers) by {
        assert forall|i: int| 0 <= i < s.pointers.len() implies u.pointers[i] == s.pointers[i] by {
            assert(t.pointers.take(s.pointers.len() as int)[i] == t.pointers[i]);
            assert(u.pointers.take(t.pointers.len() as int)[i] == u.pointers[i]);
        }
    }
}

proof fn lemma_still_heard(t: SelectionModel, u: SelectionModel, filter: FilterModel)
    requires
        grows_to(t, u),
        is_heard(t, filter),
    ensures
        is_heard(u, filter),
    decreases filter, 0int,
{
    match filter {
        FilterModel::Pointer(pointer) => {
            assert forall|target: TargetModel| t.pointers.contains(target) implies u.pointers.contains(
                target,
            ) by {
                let i = choose|i: int| 0 <= i < t.pointers.len() && t.pointers[i] == target;
                assert(u.pointers.take(t.pointers.len() as int)[i] == u.pointers[i]);
            }
        },
        FilterModel::Many(filters) => {
            lemma_all_still_heard(t, u, filters, 0);
        },
        _ => {},
    }
}

proof fn lemma_all_still_heard(
    t: SelectionModel,
    u: SelectionModel,
    filters: Seq<FilterModel>,
    i: int,
)
    requires
        grows_to(t, u),
        are_heard(t, filters, i),
    ensures
        are_heard(u, filters, i),
    decreases filters, filters.len() - i,
{
    if 0 <= i < filters.len() {
        lemma_still_heard(t, u, filters[i]);
        lemma_all_still_heard(t, u, filters, i + 1);
    }
}

proof fn lemma_filter_heard(s: SelectionModel, filter: FilterModel)
    ensures
        with_filter(s, filter) matches Ok(t) ==> grows_to(s, t) && is_heard(t, filter)
            && t.pointers.len() == s.pointers.len() + records_named(filter),
    decreases filter, 0int,
{
    assert(s.pointers.take(s.pointers.len() as int) =~= s.pointers);
    match filter {
        FilterModel::Many(filters) => {
            lemma_filters_heard(s, filters, 0);
        },
        FilterModel::Pointer(pointer) => {
            if with_filter(s, filter) is Ok && !names_drawer_only(pointer) {
                let t = with_filter(s, filter)->Ok_0;
                assert(t.pointers.take(s.pointers.len() as int) =~= s.pointers);
                assert(t.pointers[s.pointers.len() as int] == t.pointers.last());
            }
        },
        _ => {},
    }
}

proof fn lemma_filters_heard(s: SelectionModel, filters: Seq<FilterModel>, i: int)
    ensures
        with_filters(s, filters, i) matches Ok(t) ==> grows_to(s, t) && are_heard(t, filters, i)
            && t.pointers.len() == s.pointers.len() + all_records_named(filters, i),
    decreases filters, filters.len() - i,
{
    assert(s.pointers.take(s.pointers.len() as int) =~= s.pointers);
    if 0 <= i < filters.len() {
        lemma_filter_heard(s, filters[i]);
        match with_filter(s, filters[i]) {
            Ok(t) => {
                lemma_filters_heard(t, filters, i + 1);
                match with_filters(t, filters, i + 1) {
                    Ok(u) => {
                        lemma_grows_on(s, t, u);
                        lemma_still_heard(t, u, filters[i]);
                    },
                    Err(_) => {},
                }
            },
            Err(_) => {},
        }
    }
}

/// A selection holds everything that its filter asks for: the drawer of every drawer filter and
/// pointer, the query, and every pointer, as many as were given. A pointer comes behind those
/// that were given before it.
pub proof fn law_every_filter_is_heard(filter: FilterModel)
    ensures
        selected(filter) matches Ok(t) ==> is_heard(t, filter) && t.pointers.len()
            == records_named(filter),
{
    lemma_filter_heard(crate::engine::selection::no_selection(), filter);
}

/// One filter more adds to a selection what it asks for by itself, behind what is there; it is
/// refused only where another drawer or another query was selected.
pub proof fn law_filter_adds_to_selection(s: SelectionModel, filter: FilterModel)
    requires
        !(filter is Many),
    ensures
        match with_filter(s, filter) {
            Ok(t) => grows_to(s, t) && is_heard(t, filter),
            Err(f) => f.kind == ErrorKind::InvalidInput && match filter {
                FilterModel::Drawer(name) => s.drawer matches Some(other) && other
                    != without_leading(name, '@'),
                FilterModel::Pointer(pointer) => s.drawer is Some && (names_drawer_only(pointer)
                    || pointer_parts(pointer) is Some),
                FilterModel::Query(query) => s.query is Some && !(query is Null)
                    && !is_empty_object(query),
                _ => false,
            },
        },
        s.drawer is None && s.query is None ==> with_filter(s, filter) is Ok,
        filter is Nothing ==> with_filter(s, filter) == Ok::<SelectionModel, Failure>(s),
        filter is Drawer ==> (with_filter(s, filter) matches Ok(t) ==> t.query == s.query
            && t.pointers == s.pointers),
        filter is Query ==> (with_filter(s, filter) matches Ok(t) ==> t.drawer == s.drawer
            && t.pointers == s.pointers),
        filter is Pointer ==> (with_filter(s, filter) matches Ok(t) ==> t.query == s.query),
{
    lemma_filter_heard(s, filter);
}

/// Filters are taken one after another: to select by some and then by others is to select by all
/// of them.
pub proof fn law_filters_are_taken_in_order(
    s: SelectionModel,
    first: Seq<FilterModel>,
    rest: Seq<FilterModel>,
)
    ensures
        with_filters(s, first + rest, 0) == match with_filters(s, first, 0) {
            Ok(t) => with_filters(t, rest, 0),
            Err(f) => Err(f),
        },
{
    lemma_filters_split(s, first, rest, 0);
}

proof fn lemma_filters_split(
    s: SelectionModel,
    first: Seq<FilterModel>,
    rest: Seq<FilterModel>,
    i: int,
)
    requires
        0 <= i <= first.len(),
    ensures
        with_filters(s, first + rest, i) == match with_filters(s, first, i) {
            Ok(t) => with_filters(t, rest, 0),
            Err(f) => Err(f),
        },
    decreases first.len() - i,
{
    if i < first.len() {
        assert((first + rest)[i] == first[i]);
        match with_filter(s, first[i]) {
            Ok(t) => {
                lemma_filters_split(t, first, rest, i + 1);
            },
            Err(_) => {},
        }
    } else {
        lemma_filters_shift(s, first, rest, 0);
    }
}

proof fn lemma_filters_shift(
    s: SelectionModel,
    first: Seq<FilterModel>,
    rest: Seq<FilterModel>,
    j: int,
)
    requires
        0 <= j <= rest.len(),
    ensures
        with_filters(s, first + rest, first.len() + j) == with_filters(s, rest, j),
    decreases rest.len() - j,
{
    if j < rest.len() {
        assert((first + rest)[first.len() + j] == rest[j]);
        match with_filter(s, rest[j]) {
            Ok(t) => {
                lemma_filters_shift(t, first, rest, j + 1);
            },
            Err(_) => {},
        }
    }
}

/// A query upsert that finds no record writes the payload, unless the options say that nothing
/// is created; one that finds a record updates it; one that finds several updates them where the
/// options say so, and is refused else.
pub proof fn law_query_upsert_creates_or_updates(matched: nat, options: OperationOptions)
    ensures
        matched == 0 && options.create_if_missing is None ==> query_upsert(matched, options)
            == Ok::<QueryUpsert, Failure>(QueryUpsert::Create),
        matched == 0 && options.create_if_missing == Some(true) ==> query_upsert(matched, options)
            == Ok::<QueryUpsert, Failure>(QueryUpsert::Create),
        matched == 0 && options.create_if_missing == Some(false) ==> query_upsert(matched, options)
            == Ok::<QueryUpsert, Failure>(QueryUpsert::Skip),
        matched == 1 ==> query_upsert(matched, options) == Ok::<QueryUpsert, Failure>(
            QueryUpsert::Update,
        ),
        matched > 1 && options.multi == Some(true) ==> query_upsert(matched, options) == Ok::<
            QueryUpsert,
            Failure,
        >(QueryUpsert::Update),
        matched > 1 && options.multi != Some(true) ==> (query_upsert(matched, options) matches Err(
            f,
        ) && f.kind == ErrorKind::InvalidInput),
{
}

/// The record that a query upsert writes is the one that it found, with the fields of the payload
/// over its own and with its own key, and the pointer names it.
pub proof fn law_query_update_keeps_the_key(existing: Json, payload: Json, drawer: Seq<char>)
    ensures
        match query_update(existing, payload, drawer) {
            Ok((record, pointer)) => {
                &&& existing is Object && payload is Object && record is Object
                &&& record.get("_id"@) == existing.get("_id"@)
                &&& forall|k: Seq<char>|
                    k != "_id"@ ==> #[trigger] record.get(k) == match payload.get(k) {
                        Some(v) => Some(v),
                        None => existing.get(k),
                    }
                &&& existing.get_text("_id"@) matches Some(id) && match pointer_parts(id) {
                    Some((name, key)) => pointer == "@"@ + without_leading(name, '@') + ":"@
                        + clean_token(key),
                    None => pointer == "@"@ + without_leading(drawer, '@') + ":"@ + clean_token(id),
                }
            },
            Err(f) => !(existing is Object) || !(payload is Object) || existing.get_text("_id"@)
                is None,
        },
        record_over(existing, payload) is Ok <==> existing is Object && payload is Object,
{
    if existing is Object && payload is Object {
        let record = record_over(existing, payload)->Ok_0;
        assert(record.get("_id"@) == existing.get("_id"@));
        assert(record.get_text("_id"@) == existing.get_text("_id"@));
    }
}

/// A record of an upsert goes to the drawer that everything said about it agrees on, with all its
/// fields. It keeps its key; one without a key gets that of the pointer; one whose key only names
/// a drawer loses it.
pub proof fn law_record_goes_to_its_drawer(payload: Json, c: ContextModel)
    ensures
        record_target(payload, c) matches Ok((drawer, record)) ==> {
            &&& payload is Object && record is Object
            &&& forall|k: Seq<char>|
                k != "_id"@ ==> #[trigger] record.get(k) == payload.get(k)
            &&& c.drawer matches Some(name) ==> drawer == name
            &&& c.pointer matches Some(pointer) ==> (pointer_parts(pointer) matches Some((name, key))
                && drawer == without_leading(name, '@') && (payload.get("_id"@) is None
                && !names_drawer_only(key) ==> record.get("_id"@) == Some(Json::Text(key))))
            &&& match payload.get_text("_id"@) {
                Some(id) => if names_drawer_only(id) {
                    drawer == without_leading(without_leading(id, '@'), '@') && record.get("_id"@)
                        is None
                } else {
                    record.get("_id"@) == payload.get("_id"@) && (pointer_parts(id) matches Some(
                        (name, _),
                    ) ==> drawer == without_leading(name, '@'))
                },
                None => payload.get("_id"@) is Some ==> record.get("_id"@) == payload.get("_id"@),
            }
            &&& payload.get("_id"@) is None && c.pointer is None ==> record.get("_id"@) is None
        },
        payload is Object && c.pointer is None && payload.get_text("_id"@) is None ==> (
        record_target(payload, c) is Ok <==> c.drawer is Some),
        !(payload is Object) ==> record_target(payload, c) is Err,
        record_target(payload, c) matches Err(f) ==> f.kind == ErrorKind::InvalidInput,
{
    match record_target(payload, c) {
        Ok((drawer, record)) => {
            assert forall|k: Seq<char>| k != "_id"@ implies #[trigger] record.get(k) == payload.get(
                k,
            ) by {}
        },
        Err(_) => {},
    }
}

/// How the records of an upsert go to their drawers: with one record more, that record stands
/// behind the others of its drawer, and the rest is as before. It fails with the first record
/// that has no drawer.
pub proof fn law_records_are_put_to_their_drawers(c: ContextModel, records: Seq<Json>, one: Json)
    ensures
        grouped_from(c, Seq::empty(), Map::empty(), 0) == Ok::<_, Failure>(
            Map::<Seq<char>, Seq<Json>>::empty(),
        ),
        match (grouped_from(c, records, Map::empty(), 0), record_target(one, c)) {
            (Ok(groups), Ok((drawer, record))) => grouped_from(
                c,
                records.push(one),
                Map::empty(),
                0,
            ) == Ok::<_, Failure>(
                groups.insert(
                    drawer,
                    if groups.dom().contains(drawer) {
                        groups[drawer].push(record)
                    } else {
                        seq![record]
                    },
                ),
            ),
            (Ok(_), Err(f)) => grouped_from(c, records.push(one), Map::empty(), 0) == Err::<
                Map<Seq<char>, Seq<Json>>,
                Failure,
            >(f),
            (Err(f), _) => grouped_from(c, records.push(one), Map::empty(), 0) == Err::<
                Map<Seq<char>, Seq<Json>>,
                Failure,
            >(f),
        },
{
    lemma_grouped_push(c, records, one, Map::empty(), 0);
}

proof fn lemma_grouped_push(
    c: ContextModel,
    records: Seq<Json>,
    one: Json,
    groups: Map<Seq<char>, Seq<Json>>,
    i: int,
)
    requires
        0 <= i <= records.len(),
    ensures
        match (grouped_from(c, records, groups, i), record_target(one, c)) {
            (Ok(done), Ok((drawer, record))) => grouped_from(c, records.push(one), groups, i) == Ok::<
                _,
                Failure,
            >(
                done.insert(
                    drawer,
                    if done.dom().contains(drawer) {
                        done[drawer].push(record)
                    } else {
                        seq![record]
                    },
                ),
            ),
            (Ok(_), Err(f)) => grouped_from(c, records.push(one), groups, i) == Err::<
                Map<Seq<char>, Seq<Json>>,
                Failure,
            >(f),
            (Err(f), _) => grouped_from(c, records.push(one), groups, i) == Err::<
                Map<Seq<char>, Seq<Json>>,
                Failure,
            >(f),
        },
    decreases records.len() - i,
{
    let more = records.push(one);
    if i < records.len() {
        assert(more[i] == records[i]);
        match record_target(records[i], c) {
            Ok((drawer, record)) => {
                lemma_grouped_push(
                    c,
                    records,
                    one,
                    groups.insert(drawer, group_at(groups, drawer).push(record)),
                    i + 1,
                );
            },
            Err(_) => {},
        }
    } else {
        assert(more[i] == one);
        reveal_with_fuel(grouped_from, 2);
        match record_target(one, c) {
            Ok((drawer, record)) => {
                if !groups.dom().contains(drawer) {
                    assert(group_at(groups, drawer).push(record) =~= seq![record]);
                }
            },
            Err(_) => {},
        }
    }
}

/// An upsert with a query is one of what the query finds; an array of records that go into one
/// drawer is written there as it is given; any other array is put to the drawers of its records;
/// and one record goes to its drawer.
pub proof fn law_upsert_writes_the_payload(payload: Json, c: ContextModel)
    ensures
        match upsert_plan(payload, c) {
            Ok(UpsertPlanModel::ByQuery { drawer, query }) => c.query == Some(query) && c.drawer
                == Some(drawer),
            Ok(UpsertPlanModel::Bulk { drawer, records }) => c.query is None && c.pointer is None
                && c.drawer == Some(drawer) && payload == Json::Array(records),
            Ok(UpsertPlanModel::Grouped(groups)) => c.query is None && (c.pointer is Some
                || c.drawer is None) && payload is Array && grouped_from(
                c,
                payload->Array_0,
                Map::empty(),
                0,
            ) == Ok::<_, Failure>(groups),
            Ok(UpsertPlanModel::Single { drawer, record }) => c.query is None && !(payload is Array)
                && record_target(payload, c) == Ok::<_, Failure>((drawer, record)),
            Err(f) => f.kind == ErrorKind::InvalidInput,
        },
        c.query is Some ==> (upsert_plan(payload, c) is Ok <==> c.drawer is Some),
        c.query is None && c.pointer is None && c.drawer is Some && payload is Array ==> upsert_plan(
            payload,
            c,
        ) is Ok,
{
    law_record_goes_to_its_drawer(payload, c);
    if payload is Array {
        lemma_grouped_kind(c, payload->Array_0, Map::empty(), 0);
    }
}

proof fn lemma_grouped_kind(
    c: ContextModel,
    records: Seq<Json>,
    groups: Map<Seq<char>, Seq<Json>>,
    i: int,
)
    ensures
        grouped_from(c, records, groups, i) matches Err(f) ==> f.kind == ErrorKind::InvalidInput,
    decreases records.len() - i,
{
    if 0 <= i < records.len() {
        law_record_goes_to_its_drawer(records[i], c);
        match record_target(records[i], c) {
            Ok((drawer, record)) => {
                lemma_grouped_kind(
                    c,
                    records,
                    groups.insert(drawer, group_at(groups, drawer).push(record)),
                    i + 1,
                );
            },
            Err(_) => {},
        }
    }
}

/// An upsert is about what its filter selects: its drawer, its query and the one pointer.
pub proof fn law_upsert_hears_its_filter(filter: FilterModel)
    ensures
        match (upsert_context(filter), selected(filter)) {
            (Ok(c), Ok(s)) => {
                &&& c.drawer == s.drawer && c.query == s.query
                &&& s.pointers.len() <= 1
                &&& match c.pointer {
                    Some(pointer) => s.pointers.len() == 1 && points_at(
                        pointer,
                        s.pointers[0],
                        s.drawer,
                    ),
                    None => s.pointers.len() == 0,
                }
            },
            (Ok(_), Err(_)) => false,
            (Err(f), Ok(s)) => f.kind == ErrorKind::InvalidInput && (s.pointers.len() > 1
                || s.drawer is None && s.pointers.len() == 1 && s.pointers[0] is Local),
            (Err(f), Err(g)) => f == g,
        },
{
    match selected(filter) {
        Ok(s) => {
            law_every_target_is_resolved(s);
        },
        Err(_) => {},
    }
}

/// A read is answered in the form that was asked for: the first record, all records, a pointer
/// for each record that has a key, or whether there is any.
pub proof fn law_read_is_answered(
    result: ReadResult,
    records: Seq<JsonValue>,
    pagination: Option<PaginationMetadata>,
    shape: ReturnShapeResolution,
    drawer: Option<Seq<char>>,
)
    requires
        answers(result, records, pagination, shape, drawer),
    ensures
        match result {
            ReadResult::Record(Some(record)) => shape == ReturnShapeResolution::Record
                && records.len() > 0 && record == records[0],
            ReadResult::Record(None) => shape == ReturnShapeResolution::Record && records.len()
                == 0,
            ReadResult::Records(all) => shape == ReturnShapeResolution::Records && pagination
                is None && all@ == records,
            ReadResult::Page(page) => shape == ReturnShapeResolution::Records && page.records@
                == records && pagination == Some(page.pagination),
            ReadResult::Exists(there) => shape == ReturnShapeResolution::Exists && (there
                <==> records.len() > 0),
            ReadResult::Pointers(pointers) => {
                &&& shape == ReturnShapeResolution::Pointers
                &&& (forall|i: int|
                    0 <= i < records.len() ==> pointer_of_record(
                        (#[trigger] records[i])@,
                        drawer,
                    ) is Some) ==> pointers@.len() == records.len() && forall|i: int|
                    0 <= i < records.len() ==> Some((#[trigger] pointers@[i])@)
                        == pointer_of_record(records[i]@, drawer)
                &&& pointers@.len() <= records.len()
            },
        },
{
    match result {
        ReadResult::Pointers(pointers) => {
            let all = jsons(records);
            let n = records.len() as int;
            lemma_record_pointers_len(all, drawer, n);
            assert(texts(pointers@).len() == pointers@.len());
            if forall|i: int|
                0 <= i < records.len() ==> pointer_of_record(
                    (#[trigger] records[i])@,
                    drawer,
                ) is Some {
                assert forall|i: int| 0 <= i < n implies pointer_of_record(
                    #[trigger] all[i],
                    drawer,
                ) is Some by {
                    assert(all[i] == records[i]@);
                }
                lemma_record_pointers(all, drawer, n);
                assert forall|i: int| 0 <= i < records.len() implies Some((#[trigger] pointers@[i])@)
                    == pointer_of_record(records[i]@, drawer) by {
                    assert(texts(pointers@)[i] == pointers@[i]@);
                    assert(all[i] == records[i]@);
                }
            }
        },
        _ => {},
    }
}

proof fn lemma_record_pointers_len(records: Seq<Json>, drawer: Option<Seq<char>>, n: int)
    requires
        0 <= n,
    ensures
        record_pointers(records, drawer, n).len() <= n,
    decreases n,
{
    if n > 0 {
        lemma_record_pointers_len(records, drawer, n - 1);
    }
}

proof fn lemma_record_pointers(records: Seq<Json>, drawer: Option<Seq<char>>, n: int)
    requires
        0 <= n <= records.len(),
        forall|i: int|
            0 <= i < n ==> pointer_of_record(#[trigger] records[i], drawer) is Some,
    ensures
        record_pointers(records, drawer, n).len() == n,
        forall|i: int|
            0 <= i < n ==> Some(#[trigger] record_pointers(records, drawer, n)[i])
                == pointer_of_record(records[i], drawer),
    decreases n,
{
    if n > 0 {
        lemma_record_pointers(records, drawer, n - 1);
        assert(pointer_of_record(records[n - 1], drawer) is Some);
    }
}

/// The pointer of a record holds its key: in the drawer that its key names, or where that is a
/// mere key, in the drawer of the read.
pub proof fn law_record_pointer_holds_the_key(record: Json, drawer: Option<Seq<char>>)
    ensures
        match (record.get_text("_id"@), pointer_of_record(record, drawer)) {
            (Some(id), Some(pointer)) => match pointer_parts(id) {
                Some((name, key)) => pointer == "@"@ + without_leading(name, '@') + ":"@
                    + clean_token(key),
                None => drawer matches Some(name) && pointer == "@"@ + without_leading(name, '@')
                    + ":"@ + clean_token(id),
            },
            (Some(id), None) => pointer_parts(id) is None && drawer is None,
            (None, r) => r is None,
        },
{
}

/// One record is read as one record where nothing else was asked for, and any other read gives
/// records. What was asked for is given, but for a list of records, which is the form of any read
/// of more than one pointer anyway.
pub proof fn law_read_has_a_shape(asked: Option<ReturnShape>, s: SelectionModel)
    ensures
        asked == Some(ReturnShape::Record) ==> read_shape(asked, s)
            == ReturnShapeResolution::Record,
        asked == Some(ReturnShape::Pointers) ==> read_shape(asked, s)
            == ReturnShapeResolution::Pointers,
        asked == Some(ReturnShape::Exists) ==> read_shape(asked, s)
            == ReturnShapeResolution::Exists,
        asked is None || asked == Some(ReturnShape::Default) || asked == Some(ReturnShape::Records)
            || asked == Some(ReturnShape::Diagnostics) ==> (read_shape(asked, s)
            == ReturnShapeResolution::Record <==> s.pointers.len() == 1 && s.query is None) && (
        read_shape(asked, s) == ReturnShapeResolution::Records <==> s.pointers.len() != 1
            || s.query is Some),
{
}

/// The records of a read are filled in unless the options say otherwise, where whole records are
/// given and they were not named by pointers.
pub proof fn law_whole_records_are_filled_in(
    hydrate: bool,
    s: SelectionModel,
    shape: ReturnShapeResolution,
)
    ensures
        fills_in(hydrate, s, shape) ==> hydrate && s.pointers.len() == 0,
        hydrate && s.pointers.len() == 0 && (shape == ReturnShapeResolution::Record || shape
            == ReturnShapeResolution::Records) ==> fills_in(hydrate, s, shape),
        shape == ReturnShapeResolution::Pointers || shape == ReturnShapeResolution::Exists
            ==> !fills_in(hydrate, s, shape),
{
}

} // verus!
