//! What the options and filters of a command say, as they are given in JSON or as texts.
use crate::command::model::{
    json_filter, json_options, located_filter, no_options, option_set, options_set_from,
    query_filter, text_filter, FilterModel, OptionsModel, ReturnShape,
};
use crate::error::ErrorKind;
use crate::fields::{key_order, lemma_key_order_len};
use crate::pointer::pointer_parts;
use crate::storage::types::OrderDirection;
use crate::text::{
    first_index, first_other, lemma_first_index, lemma_first_other, less_prefix, starts_with,
    without_leading,
};
use crate::value::{Json, Number};
use vstd::prelude::*;

verus! {

/// The word for a form of result.
pub open spec fn shape_word(shape: ReturnShape) -> Seq<char> {
    match shape {
        ReturnShape::Default => "default"@,
        ReturnShape::Records => "records"@,
        ReturnShape::Record => "record"@,
        ReturnShape::Pointers => "pointers"@,
        ReturnShape::Exists => "exists"@,
        ReturnShape::Diagnostics => "diagnostics"@,
    }
}

/// The word for a direction.
pub open spec fn direction_word(direction: OrderDirection) -> Seq<char> {
    match direction {
        OrderDirection::Ascending => "asc"@,
        OrderDirection::Descending => "desc"@,
    }
}

/// A truth value in JSON.
pub open spec fn of_bool(b: Option<bool>) -> Option<Json> {
    match b {
        Some(b) => Some(Json::Bool(b)),
        None => None,
    }
}

/// A number in JSON.
pub open spec fn of_size(n: Option<usize>) -> Option<Json> {
    match n {
        Some(n) => Some(Json::Number(Number::PosInt(n as u64))),
        None => None,
    }
}

/// A text in JSON.
pub open spec fn of_text(s: Option<Seq<char>>) -> Option<Json> {
    match s {
        Some(s) => Some(Json::Text(s)),
        None => None,
    }
}

/// What options say under the name of one of them.
pub open spec fn said(o: OptionsModel, key: Seq<char>) -> Option<Json> {
    if key == "multi"@ {
        of_bool(o.multi)
    } else if key == "atomic"@ {
        of_bool(o.atomic)
    } else if key == "create_if_missing"@ {
        of_bool(o.create_if_missing)
    } else if key == "return_shape"@ {
        match o.return_shape {
            Some(shape) => Some(Json::Text(shape_word(shape))),
            None => None,
        }
    } else if key == "hydrate"@ {
        of_bool(o.hydrate)
    } else if key == "limit"@ {
        of_size(o.limit)
    } else if key == "offset"@ {
        of_size(o.offset)
    } else if key == "order_by"@ {
        of_text(o.order_by)
    } else if key == "order_direction"@ {
        match o.order_direction {
            Some(direction) => Some(Json::Text(direction_word(direction))),
            None => None,
        }
    } else if key == "cursor"@ {
        of_text(o.cursor)
    } else if key == "page"@ {
        of_size(o.page)
    } else if key == "page_size"@ {
        of_size(o.page_size)
    } else if key == "include_diagnostics"@ {
        of_bool(o.include_diagnostics)
    } else {
        None
    }
}

/// Whether no options can say this.
pub open spec fn cannot_be_said(key: Seq<char>, value: Json) -> bool {
    forall|o: OptionsModel| #[trigger] said(o, key) != Some(value)
}

proof fn lemma_option_words()
    ensures
        "multi"@ != "limit"@,
        "atomic"@ != "offset"@,
        "atomic"@ != "cursor"@,
        "offset"@ != "cursor"@,
        "multi"@.len() == 5,
        "limit"@.len() == 5,
        "atomic"@.len() == 6,
        "offset"@.len() == 6,
        "cursor"@.len() == 6,
        "create_if_missing"@.len() == 17,
        "return_shape"@.len() == 12,
        "hydrate"@.len() == 7,
        "order_by"@.len() == 8,
        "order_direction"@.len() == 15,
        "page"@.len() == 4,
        "page_size"@.len() == 9,
        "include_diagnostics"@.len() == 19,
{
    reveal_strlit("multi");
    reveal_strlit("limit");
    reveal_strlit("atomic");
    reveal_strlit("offset");
    reveal_strlit("cursor");
    reveal_strlit("create_if_missing");
    reveal_strlit("return_shape");
    reveal_strlit("hydrate");
    reveal_strlit("order_by");
    reveal_strlit("order_direction");
    reveal_strlit("page");
    reveal_strlit("page_size");
    reveal_strlit("include_diagnostics");
    assert("multi"@[0] == 'm' && "limit"@[0] == 'l');
    assert("atomic"@[0] == 'a' && "offset"@[0] == 'o' && "cursor"@[0] == 'c');
}

proof fn lemma_option_set(o: OptionsModel, key: Seq<char>, value: Json, asked: Seq<char>)
    ensures
        match option_set(o, key, value) {
            Ok(after) => said(after, asked) == if asked == key {
                Some(value)
            } else {
                said(o, asked)
            },
            Err(f) => f.kind == ErrorKind::InvalidInput,
        },
{
    lemma_option_words();
}

proof fn lemma_option_refused(o: OptionsModel, key: Seq<char>, value: Json)
    ensures
        option_set(o, key, value) is Err ==> cannot_be_said(key, value),
{
    lemma_option_words();
    lemma_result_words();
}

proof fn lemma_result_words()
    ensures
        crate::command::model::shape_named("default"@) == Some(ReturnShape::Default),
        crate::command::model::shape_named("records"@) == Some(ReturnShape::Records),
        crate::command::model::shape_named("record"@) == Some(ReturnShape::Record),
        crate::command::model::shape_named("pointers"@) == Some(ReturnShape::Pointers),
        crate::command::model::shape_named("exists"@) == Some(ReturnShape::Exists),
        crate::command::model::shape_named("diagnostics"@) == Some(ReturnShape::Diagnostics),
        crate::command::model::direction_named("asc"@) == Some(OrderDirection::Ascending),
        crate::command::model::direction_named("desc"@) == Some(OrderDirection::Descending),
{
    reveal_strlit("default");
    reveal_strlit("records");
    reveal_strlit("record");
    reveal_strlit("pointers");
    reveal_strlit("exists");
    reveal_strlit("diagnostics");
    reveal_strlit("asc");
    reveal_strlit("desc");
    assert("default"@.len() == 7 && "records"@.len() == 7 && "record"@.len() == 6);
    assert("exists"@.len() == 6 && "pointers"@.len() == 8 && "diagnostics"@.len() == 11);
    assert("default"@[0] == 'd' && "records"@[0] == 'r');
    assert("record"@[0] == 'r' && "exists"@[0] == 'e');
    assert("asc"@.len() == 3 && "desc"@.len() == 4);
}

proof fn lemma_options_said(
    o: OptionsModel,
    fields: Map<Seq<char>, Json>,
    i: int,
    asked: Seq<char>,
)
    requires
        fields.dom().finite(),
        0 <= i <= key_order(fields.dom()).len(),
        said(o, asked) == if key_order(fields.dom()).take(i).contains(asked) {
            Some(fields[asked])
        } else {
            None
        },
    ensures
        match options_set_from(o, fields, i) {
            Ok(after) => said(after, asked) == if fields.dom().contains(asked) {
                Some(fields[asked])
            } else {
                None
            },
            Err(f) => f.kind == ErrorKind::InvalidInput && exists|key: Seq<char>| #[trigger]
                fields.dom().contains(key) && cannot_be_said(key, fields[key]),
        },
    decreases key_order(fields.dom()).len() - i,
{
    let keys = key_order(fields.dom());
    lemma_key_order_len(fields.dom());
    if i < keys.len() {
        let key = keys[i];
        assert(fields.dom().contains(key));
        lemma_option_set(o, key, fields[key], asked);
        lemma_option_refused(o, key, fields[key]);
        match option_set(o, key, fields[key]) {
            Ok(after) => {
                let fewer = keys.take(i);
                let more = keys.take(i + 1);
                assert(more =~= fewer.push(key));
                assert(more[i] == key);
                if more.contains(asked) {
                    let k = choose|k: int| 0 <= k < more.len() && more[k] == asked;
                    if k < i {
                        assert(fewer[k] == asked);
                    }
                }
                if fewer.contains(asked) {
                    let k = choose|k: int| 0 <= k < fewer.len() && fewer[k] == asked;
                    assert(more[k] == asked);
                }
                lemma_options_said(after, fields, i + 1, asked);
            },
            Err(_) => {},
        }
    } else {
        assert(keys.take(i) =~= keys);
        if fields.dom().contains(asked) {
            assert(keys.contains(asked));
        }
        if keys.contains(asked) {
            let k = choose|k: int| 0 <= k < keys.len() && keys[k] == asked;
            assert(fields.dom().contains(keys[k]));
        }
    }
}

/// The options that an object gives say under every name what the object says, and nothing more.
/// An object is refused only for a field that no options can say, and what is no object always is.
pub proof fn law_options_say_what_the_object_says(value: Json, asked: Seq<char>)
    requires
        value matches Json::Object(fields) ==> fields.dom().finite(),
    ensures
        match json_options(value) {
            Ok(o) => value is Object && said(o, asked) == value.get(asked),
            Err(f) => f.kind == ErrorKind::InvalidInput && (value matches Json::Object(fields)
                ==> exists|key: Seq<char>| #[trigger]
                fields.dom().contains(key) && cannot_be_said(key, fields[key])),
        },
{
    match value {
        Json::Object(fields) => {
            assert(key_order(fields.dom()).take(0) =~= Seq::empty());
            assert(said(no_options()@, asked) is None);
            lemma_options_said(no_options()@, fields, 0, asked);
        },
        _ => {},
    }
}

proof fn lemma_bare(s: Seq<char>)
    ensures
        !starts_with(s, "@"@) ==> without_leading(s, '@') == s,
        without_leading(s, '@').len() > 0 ==> without_leading(s, '@')[0] != '@',
{
    reveal_strlit("@");
    lemma_first_other(s, '@', 0);
    if !starts_with(s, "@"@) {
        if s.len() > 0 && s[0] == '@' {
            assert(s.subrange(0, 1) =~= "@"@);
        }
        assert(s.subrange(0, s.len() as int) =~= s);
    }
}

/// A text is the name of a drawer, unless a mark stands before it and a colon in it: then it is a
/// pointer to a record. The marks before the name of a drawer do not belong to the name.
pub proof fn law_text_names_a_drawer_or_a_record(text: Seq<char>, name: Seq<char>)
    ensures
        !starts_with(text, "@"@) ==> text_filter(text) == FilterModel::Drawer(text),
        starts_with(text, "@"@) && text.contains(':') ==> text_filter(text)
            == FilterModel::Pointer(text),
        !starts_with(name, "@"@) && !name.contains(':') ==> text_filter("@"@ + name)
            == FilterModel::Drawer(name),
{
    reveal_strlit("@");
    lemma_bare(text);
    lemma_bare(name);
    let marked = "@"@ + name;
    assert(marked.subrange(0, 1) =~= "@"@);
    if !starts_with(name, "@"@) && !name.contains(':') {
        if marked.contains(':') {
            let i = choose|i: int| 0 <= i < marked.len() && marked[i] == ':';
            assert(name[i - 1] == ':');
        }
        lemma_first_other(marked, '@', 0);
        if name.len() > 0 && name[0] == '@' {
            assert(name.subrange(0, 1) =~= "@"@);
        }
        assert(first_other(marked, '@', 0) == 1) by {
            if name.len() > 0 {
                assert(marked[1] == name[0]);
            }
        }
        assert(marked.subrange(1, marked.len() as int) =~= name);
    }
}

/// The filter of a record by its drawer and its key is a pointer with just these, whether the key
/// is given bare or with the mark of a link before it.
pub proof fn law_place_names_the_record(drawer: Seq<char>, key: Seq<char>)
    requires
        drawer.len() > 0,
        !starts_with(drawer, "@"@),
        !drawer.contains(':'),
        key.len() > 0,
        !key.contains(':'),
        !starts_with(key, "lnk_"@),
    ensures
        located_filter(drawer, key) matches FilterModel::Pointer(pointer) && pointer_parts(pointer)
            == Some((drawer, key)),
        located_filter(drawer, "lnk_"@ + key) == located_filter(drawer, key),
{
    reveal_strlit("@");
    reveal_strlit(":");
    reveal_strlit("lnk_");
    lemma_bare(drawer);
    let pointer = "@"@ + drawer + ":"@ + key;
    assert(pointer.subrange(0, 1) =~= "@"@);
    assert(pointer[1 + drawer.len() as int] == ':');
    let rest = pointer.subrange(1, pointer.len() as int);
    assert(rest =~= drawer + seq![':'] + key);
    lemma_first_index(rest, ':', 0);
    let j = first_index(rest, ':', 0);
    assert(rest[drawer.len() as int] == ':');
    if j < drawer.len() {
        assert(drawer[j] == ':');
    }
    assert(rest.subrange(0, j) =~= drawer);
    assert(rest.subrange(j + 1, rest.len() as int) =~= key);
    let linked = "lnk_"@ + key;
    assert(linked.subrange(0, 4) =~= "lnk_"@);
    assert(linked.subrange(4, linked.len() as int) =~= key);
    assert(less_prefix(linked, "lnk_"@) == key);
}

/// A JSON value that is given as a filter: null and what is empty select nothing, a text is read
/// as such, an array holds a filter for each item, in order, an object with an identifier points
/// at its record, one with a drawer selects the drawer, and any other value is a query.
pub proof fn law_value_is_a_filter(value: Json)
    ensures
        match value {
            Json::Null => json_filter(value) == FilterModel::Nothing,
            Json::Text(text) => json_filter(value) == text_filter(text),
            Json::Array(items) => if items.len() == 0 {
                json_filter(value) == FilterModel::Nothing
            } else {
                json_filter(value) matches FilterModel::Many(filters) && filters.len()
                    == items.len() && forall|i: int|
                    0 <= i < items.len() ==> #[trigger] filters[i] == json_filter(items[i])
            },
            Json::Object(fields) => {
                &&& (forall|key: Seq<char>| !fields.dom().contains(key)) ==> json_filter(value)
                    == FilterModel::Nothing
                &&& value.get("_id"@) matches Some(Json::Text(id)) ==> (id.contains(':')
                    ==> json_filter(value) == FilterModel::Pointer(id))
                &&& !(value.get("_id"@) matches Some(Json::Text(_))) ==> (value.get(
                    "drawer"@,
                ) matches Some(Json::Text(drawer)) ==> (!starts_with(drawer, "@"@)
                    ==> json_filter(value) == FilterModel::Drawer(drawer)))
                &&& !(value.get("_id"@) matches Some(Json::Text(_))) && !(value.get(
                    "drawer"@,
                ) matches Some(Json::Text(_))) && (exists|key: Seq<char>|
                    fields.dom().contains(key)) ==> json_filter(value) == FilterModel::Query(value)
            },
            _ => json_filter(value) == FilterModel::Query(value),
        },
{
    match value {
        Json::Object(fields) => {
            if forall|key: Seq<char>| !fields.dom().contains(key) {
                assert(fields.dom() =~= Set::<Seq<char>>::empty());
            }
            match value.get("drawer"@) {
                Some(Json::Text(drawer)) => {
                    lemma_bare(drawer);
                },
                _ => {},
            }
        },
        _ => {},
    }
}

/// A query is asked as it is given; only the empty one selects nothing.
pub proof fn law_query_is_asked_as_given(query: Json, key: Seq<char>)
    ensures
        query.get(key) is Some ==> query_filter(query) == FilterModel::Query(query),
        query_filter(query) == FilterModel::Query(query) || query_filter(query)
            == FilterModel::Nothing && query is Object && query.get(key) is None,
{
}

} // verus!
