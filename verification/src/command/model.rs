//! Commands, their filters and options, and their results.
use crate::pointer::{is_drawer_only, names_drawer_only};
use crate::storage::types::{OrderDirection, QueryModifiers, StorageLocator};
use crate::error::{bad_input, Error, Failure};
use crate::fields::key_order;
use crate::text::{
    concat3, concat4, copy_opt, drop_prefix, has_prefix, less_prefix, opt_text, owned, same,
    starts_with, trim_start_char, without_leading,
};
use crate::value::{group_value, json_fields, jsons, Json, JsonValue};
use vstd::prelude::*;
use vstd::std_specs::convert::FromSpecImpl;

verus! {

/// What a command is about: a drawer, a record, the records that a query finds, or several of
/// these together.
#[derive(Debug, PartialEq, Eq)]
pub enum OperationFilter {
    Empty,
    Drawer(String),
    Pointer(String),
    Query(JsonValue),
    Many(Vec<OperationFilter>),
}

/// The model of a filter.
#[verifier::ext_equal]
pub enum FilterModel {
    Nothing,
    Drawer(Seq<char>),
    Pointer(Seq<char>),
    Query(Json),
    Many(Seq<FilterModel>),
}

impl OperationFilter {
    /// The model of the filter.
    pub open spec fn model(self) -> FilterModel
        decreases self,
    {
        match self {
            OperationFilter::Empty => FilterModel::Nothing,
            OperationFilter::Drawer(name) => FilterModel::Drawer(name@),
            OperationFilter::Pointer(pointer) => FilterModel::Pointer(pointer@),
            OperationFilter::Query(query) => FilterModel::Query(query@),
            OperationFilter::Many(filters) => FilterModel::Many(
                Seq::new(
                    filters@.len(),
                    |i: int|
                        if 0 <= i < filters@.len() {
                            filters@[i].model()
                        } else {
                            FilterModel::Nothing
                        },
                ),
            ),
        }
    }
}

impl View for OperationFilter {
    type V = FilterModel;

    open spec fn view(&self) -> FilterModel {
        self.model()
    }
}

/// The models of a sequence of filters.
pub open spec fn filter_models(filters: Seq<OperationFilter>) -> Seq<FilterModel> {
    Seq::new(filters.len(), |i: int| filters[i]@)
}

pub proof fn lemma_many_model(filters: Vec<OperationFilter>)
    ensures
        OperationFilter::Many(filters).model() == FilterModel::Many(filter_models(filters@)),
{
    assert(OperationFilter::Many(filters).model()->Many_0 =~= filter_models(filters@));
}

impl Clone for OperationFilter {
    fn clone(&self) -> (r: Self)
        ensures
            r@ == self@,
        decreases self,
    {
        match self {
            OperationFilter::Empty => OperationFilter::Empty,
            OperationFilter::Drawer(name) => OperationFilter::Drawer(name.clone()),
            OperationFilter::Pointer(pointer) => OperationFilter::Pointer(pointer.clone()),
            OperationFilter::Query(query) => OperationFilter::Query(query.clone()),
            OperationFilter::Many(filters) => {
                let mut out: Vec<OperationFilter> = Vec::new();
                let mut i: usize = 0;
                while i < filters.len()
                    invariant
                        *self == OperationFilter::Many(*filters),
                        i <= filters@.len(),
                        out@.len() == i,
                        forall|k: int| 0 <= k < i ==> (#[trigger] out@[k])@ == filters@[k]@,
                    decreases filters@.len() - i,
                {
                    assert(decreases_to!(*self => self->Many_0));
                    assert(decreases_to!(self->Many_0 => self->Many_0@));
                    assert(decreases_to!(filters@ => filters@[i as int]));
                    let copy = filters[i].clone();
                    out.push(copy);
                    i += 1;
                }
                proof {
                    lemma_many_model(out);
                    lemma_many_model(*filters);
                    assert(filter_models(out@) =~= filter_models(filters@));
                }
                OperationFilter::Many(out)
            },
        }
    }
}

/// The filter of a drawer by name, which may start with marks.
pub open spec fn drawer_filter(name: Seq<char>) -> FilterModel {
    FilterModel::Drawer(without_leading(name, '@'))
}

/// The filter of a pointer.
pub open spec fn pointer_filter(pointer: Seq<char>) -> FilterModel {
    if names_drawer_only(pointer) {
        drawer_filter(pointer)
    } else {
        FilterModel::Pointer(pointer)
    }
}

/// Whether a value is an object without fields.
pub open spec fn is_empty_object(value: Json) -> bool {
    value matches Json::Object(fields) && fields.dom() =~= Set::<Seq<char>>::empty()
}

/// The filter of a query.
pub open spec fn query_filter(query: Json) -> FilterModel {
    if is_empty_object(query) {
        FilterModel::Nothing
    } else {
        FilterModel::Query(query)
    }
}

/// The filter of several.
pub open spec fn many_filter(filters: Seq<FilterModel>) -> FilterModel {
    if filters.len() == 0 {
        FilterModel::Nothing
    } else {
        FilterModel::Many(filters)
    }
}

/// The filter of a text: a pointer where it starts with a mark, else the name of a drawer.
pub open spec fn text_filter(text: Seq<char>) -> FilterModel {
    if starts_with(text, "@"@) {
        pointer_filter(text)
    } else {
        drawer_filter(text)
    }
}

/// The filter of a record by its drawer and its key.
pub open spec fn located_filter(drawer: Seq<char>, id: Seq<char>) -> FilterModel {
    pointer_filter("@"@ + without_leading(drawer, '@') + ":"@ + less_prefix(id, "lnk_"@))
}

/// The filter that a JSON value stands for.
pub open spec fn json_filter(value: Json) -> FilterModel
    decreases value,
{
    match value {
        Json::Null => FilterModel::Nothing,
        Json::Text(text) => text_filter(text),
        Json::Array(items) => many_filter(
            Seq::new(
                items.len(),
                |i: int|
                    if 0 <= i < items.len() {
                        json_filter(items[i])
                    } else {
                        FilterModel::Nothing
                    },
            ),
        ),
        Json::Object(_) => if is_empty_object(value) {
            FilterModel::Nothing
        } else {
            match (value.get_text("_id"@), value.get_text("drawer"@)) {
                (Some(id), _) => pointer_filter(id),
                (None, Some(drawer)) => drawer_filter(drawer),
                (None, None) => FilterModel::Query(value),
            }
        },
        _ => FilterModel::Query(value),
    }
}

impl OperationFilter {
    pub fn none() -> (r: Self)
        ensures
            r@ == FilterModel::Nothing,
    {
        OperationFilter::Empty
    }

    pub fn drawer(drawer_name: &str) -> (r: Self)
        ensures
            r@ == drawer_filter(drawer_name@),
    {
        OperationFilter::Drawer(trim_start_char(drawer_name, '@'))
    }

    pub fn pointer(pointer: &str) -> (r: Self)
        ensures
            r@ == pointer_filter(pointer@),
    {
        if is_drawer_only(pointer) {
            return OperationFilter::drawer(pointer);
        }
        OperationFilter::Pointer(owned(pointer))
    }

    pub fn query(query: JsonValue) -> (r: Self)
        ensures
            r@ == query_filter(query@),
    {
        broadcast use group_value;

        let empty = match &query {
            JsonValue::Object(fields) => {
                assert(json_fields(*fields).dom() =~= fields@.dom());
                fields.is_empty()
            },
            _ => false,
        };
        if empty {
            OperationFilter::Empty
        } else {
            OperationFilter::Query(query)
        }
    }

    pub fn many(filters: Vec<OperationFilter>) -> (r: Self)
        ensures
            r@ == many_filter(filter_models(filters@)),
    {
        if filters.len() == 0 {
            OperationFilter::Empty
        } else {
            proof {
                lemma_many_model(filters);
            }
            OperationFilter::Many(filters)
        }
    }

    pub fn query_in(drawer_name: &str, query: JsonValue) -> (r: Self)
        ensures
            r@ == FilterModel::Many(seq![drawer_filter(drawer_name@), query_filter(query@)]),
    {
        let ghost asked = query@;
        let mut filters: Vec<OperationFilter> = Vec::new();
        filters.push(OperationFilter::drawer(drawer_name));
        filters.push(OperationFilter::query(query));
        proof {
            lemma_many_model(filters);
            assert(filter_models(filters@) =~= seq![
                drawer_filter(drawer_name@),
                query_filter(asked),
            ]);
        }
        OperationFilter::Many(filters)
    }

    /// The filter that a text stands for.
    pub fn from_text(value: &str) -> (r: Self)
        ensures
            r@ == text_filter(value@),
    {
        if has_prefix(value, "@") {
            OperationFilter::pointer(value)
        } else {
            OperationFilter::drawer(value)
        }
    }

    /// The filter of a record.
    pub fn from_locator(locator: &StorageLocator) -> (r: Self)
        ensures
            r@ == (match *locator {
                StorageLocator::Inline(pointer) => pointer_filter(pointer@),
                StorageLocator::Explicit { drawer, id } => located_filter(drawer@, id@),
            }),
    {
        match locator {
            StorageLocator::Inline(pointer) => OperationFilter::pointer(pointer.as_str()),
            StorageLocator::Explicit { drawer, id } => {
                let name = trim_start_char(drawer.as_str(), '@');
                let key = drop_prefix(id.as_str(), "lnk_");
                let pointer = concat4("@", name.as_str(), ":", key.as_str());
                OperationFilter::pointer(pointer.as_str())
            },
        }
    }

    /// The filter that a JSON value stands for.
    pub fn from_value(value: &JsonValue) -> (r: Self)
        ensures
            r@ == json_filter(value@),
        decreases value,
    {
        broadcast use group_value;

        match value {
            JsonValue::Null => OperationFilter::Empty,
            JsonValue::String(text) => OperationFilter::from_text(text.as_str()),
            JsonValue::Array(items) => {
                let ghost all = jsons(items@);
                let mut filters: Vec<OperationFilter> = Vec::new();
                let mut i: usize = 0;
                while i < items.len()
                    invariant
                        *value == JsonValue::Array(*items),
                        all == jsons(items@),
                        i <= items@.len(),
                        filters@.len() == i,
                        forall|k: int|
                            0 <= k < i ==> (#[trigger] filters@[k])@ == json_filter(all[k]),
                    decreases items@.len() - i,
                {
                    assert(all[i as int] == items@[i as int]@);
                    assert(decreases_to!(*value => value->Array_0));
                    assert(decreases_to!(value->Array_0 => value->Array_0@));
                    assert(decreases_to!(items@ => items@[i as int]));
                    filters.push(OperationFilter::from_value(&items[i]));
                    i += 1;
                }
                proof {
                    assert(value@ == Json::Array(all));
                    if all.len() > 0 {
                        assert(json_filter(value@)->Many_0 =~= filter_models(filters@));
                    }
                }
                OperationFilter::many(filters)
            },
            JsonValue::Object(fields) => {
                assert(json_fields(*fields).dom() =~= fields@.dom());
                if fields.is_empty() {
                    return OperationFilter::Empty;
                }
                match value.get_str("_id") {
                    Some(id) => {
                        return OperationFilter::pointer(id);
                    },
                    None => {},
                }
                match value.get_str("drawer") {
                    Some(drawer) => {
                        return OperationFilter::drawer(drawer);
                    },
                    None => {},
                }
                OperationFilter::Query(value.clone())
            },
            _ => OperationFilter::Query(value.clone()),
        }
    }
}

impl FromSpecImpl<()> for OperationFilter {
    open spec fn obeys_from_spec() -> bool {
        false
    }

    open spec fn from_spec(v: ()) -> Self {
        arbitrary()
    }
}

impl From<()> for OperationFilter {
    fn from(value: ()) -> (r: Self)
        ensures
            r@ == FilterModel::Nothing,
    {
        OperationFilter::Empty
    }
}

impl FromSpecImpl<Option<OperationFilter>> for OperationFilter {
    open spec fn obeys_from_spec() -> bool {
        false
    }

    open spec fn from_spec(v: Option<OperationFilter>) -> Self {
        arbitrary()
    }
}

impl From<Option<OperationFilter>> for OperationFilter {
    fn from(value: Option<OperationFilter>) -> (r: Self)
        ensures
            r@ == (match value {
                Some(filter) => filter@,
                None => FilterModel::Nothing,
            }),
    {
        match value {
            Some(filter) => filter,
            None => OperationFilter::Empty,
        }
    }
}

impl FromSpecImpl<&str> for OperationFilter {
    open spec fn obeys_from_spec() -> bool {
        false
    }

    open spec fn from_spec(v: &str) -> Self {
        arbitrary()
    }
}

impl From<&str> for OperationFilter {
    fn from(value: &str) -> (r: Self)
        ensures
            r@ == text_filter(value@),
    {
        OperationFilter::from_text(value)
    }
}

impl FromSpecImpl<String> for OperationFilter {
    open spec fn obeys_from_spec() -> bool {
        false
    }

    open spec fn from_spec(v: String) -> Self {
        arbitrary()
    }
}

impl From<String> for OperationFilter {
    fn from(value: String) -> (r: Self)
        ensures
            r@ == text_filter(value@),
    {
        OperationFilter::from_text(value.as_str())
    }
}

impl FromSpecImpl<&String> for OperationFilter {
    open spec fn obeys_from_spec() -> bool {
        false
    }

    open spec fn from_spec(v: &String) -> Self {
        arbitrary()
    }
}

impl From<&String> for OperationFilter {
    fn from(value: &String) -> (r: Self)
        ensures
            r@ == text_filter(value@),
    {
        OperationFilter::from_text(value.as_str())
    }
}

impl FromSpecImpl<JsonValue> for OperationFilter {
    open spec fn obeys_from_spec() -> bool {
        false
    }

    open spec fn from_spec(v: JsonValue) -> Self {
        arbitrary()
    }
}

impl From<JsonValue> for OperationFilter {
    fn from(value: JsonValue) -> (r: Self)
        ensures
            r@ == json_filter(value@),
    {
        OperationFilter::from_value(&value)
    }
}

impl FromSpecImpl<StorageLocator> for OperationFilter {
    open spec fn obeys_from_spec() -> bool {
        false
    }

    open spec fn from_spec(v: StorageLocator) -> Self {
        arbitrary()
    }
}

impl From<StorageLocator> for OperationFilter {
    fn from(locator: StorageLocator) -> (r: Self)
        ensures
            r@ == (match locator {
                StorageLocator::Inline(pointer) => pointer_filter(pointer@),
                StorageLocator::Explicit { drawer, id } => located_filter(drawer@, id@),
            }),
    {
        OperationFilter::from_locator(&locator)
    }
}

impl FromSpecImpl<(&str, &str)> for OperationFilter {
    open spec fn obeys_from_spec() -> bool {
        false
    }

    open spec fn from_spec(v: (&str, &str)) -> Self {
        arbitrary()
    }
}

impl From<(&str, &str)> for OperationFilter {
    fn from(place: (&str, &str)) -> (r: Self)
        ensures
            r@ == located_filter(place.0@, place.1@),
    {
        let (drawer, id) = place;
        OperationFilter::from_locator(
            &StorageLocator::Explicit { drawer: owned(drawer), id: owned(id) },
        )
    }
}

impl FromSpecImpl<(String, String)> for OperationFilter {
    open spec fn obeys_from_spec() -> bool {
        false
    }

    open spec fn from_spec(v: (String, String)) -> Self {
        arbitrary()
    }
}

impl From<(String, String)> for OperationFilter {
    fn from(place: (String, String)) -> (r: Self)
        ensures
            r@ == located_filter(place.0@, place.1@),
    {
        let (drawer, id) = place;
        OperationFilter::from_locator(&StorageLocator::Explicit { drawer, id })
    }
}

/// The form in which the result of a read is given.
#[derive(Debug, Clone, Copy, PartialEq, Eq, Structural)]
pub enum ReturnShape {
    Default,
    Records,
    Record,
    Pointers,
    Exists,
    Diagnostics,
}

/// The shape that a word names.
pub open spec fn shape_named(word: Seq<char>) -> Option<ReturnShape> {
    if word == "default"@ {
        Some(ReturnShape::Default)
    } else if word == "records"@ {
        Some(ReturnShape::Records)
    } else if word == "record"@ {
        Some(ReturnShape::Record)
    } else if word == "pointers"@ {
        Some(ReturnShape::Pointers)
    } else if word == "exists"@ {
        Some(ReturnShape::Exists)
    } else if word == "diagnostics"@ {
        Some(ReturnShape::Diagnostics)
    } else {
        None
    }
}

fn parse_shape(word: &str) -> (r: Option<ReturnShape>)
    ensures
        r == shape_named(word@),
{
    if same(word, "default") {
        Some(ReturnShape::Default)
    } else if same(word, "records") {
        Some(ReturnShape::Records)
    } else if same(word, "record") {
        Some(ReturnShape::Record)
    } else if same(word, "pointers") {
        Some(ReturnShape::Pointers)
    } else if same(word, "exists") {
        Some(ReturnShape::Exists)
    } else if same(word, "diagnostics") {
        Some(ReturnShape::Diagnostics)
    } else {
        None
    }
}

/// The direction that a word names.
pub open spec fn direction_named(word: Seq<char>) -> Option<OrderDirection> {
    if word == "asc"@ {
        Some(OrderDirection::Ascending)
    } else if word == "desc"@ {
        Some(OrderDirection::Descending)
    } else {
        None
    }
}

fn parse_direction(word: &str) -> (r: Option<OrderDirection>)
    ensures
        r == direction_named(word@),
{
    if same(word, "asc") {
        Some(OrderDirection::Ascending)
    } else if same(word, "desc") {
        Some(OrderDirection::Descending)
    } else {
        None
    }
}

/// How a command is to be carried out. What is not given is left to the command.
#[derive(Debug, PartialEq, Eq)]
pub struct OperationOptions {
    pub multi: Option<bool>,
    pub atomic: Option<bool>,
    pub create_if_missing: Option<bool>,
    pub return_shape: Option<ReturnShape>,
    pub hydrate: Option<bool>,
    pub limit: Option<usize>,
    pub offset: Option<usize>,
    pub order_by: Option<String>,
    pub order_direction: Option<OrderDirection>,
    pub cursor: Option<String>,
    pub page: Option<usize>,
    pub page_size: Option<usize>,
    pub include_diagnostics: Option<bool>,
}

/// The options of which none is given.
pub open spec fn no_options() -> OperationOptions {
    OperationOptions {
        multi: None,
        atomic: None,
        create_if_missing: None,
        return_shape: None,
        hydrate: None,
        limit: None,
        offset: None,
        order_by: None,
        order_direction: None,
        cursor: None,
        page: None,
        page_size: None,
        include_diagnostics: None,
    }
}

impl Default for OperationOptions {
    fn default() -> (r: Self)
        ensures
            r == no_options(),
    {
        OperationOptions {
            multi: None,
            atomic: None,
            create_if_missing: None,
            return_shape: None,
            hydrate: None,
            limit: None,
            offset: None,
            order_by: None,
            order_direction: None,
            cursor: None,
            page: None,
            page_size: None,
            include_diagnostics: None,
        }
    }
}

impl Clone for OperationOptions {
    fn clone(&self) -> (r: Self)
        ensures
            r == *self,
    {
        OperationOptions {
            multi: self.multi,
            atomic: self.atomic,
            create_if_missing: self.create_if_missing,
            return_shape: self.return_shape,
            hydrate: self.hydrate,
            limit: self.limit,
            offset: self.offset,
            order_by: copy_opt(&self.order_by),
            order_direction: self.order_direction,
            cursor: copy_opt(&self.cursor),
            page: self.page,
            page_size: self.page_size,
            include_diagnostics: self.include_diagnostics,
        }
    }
}

/// The model of options: texts by their characters.
pub struct OptionsModel {
    pub multi: Option<bool>,
    pub atomic: Option<bool>,
    pub create_if_missing: Option<bool>,
    pub return_shape: Option<ReturnShape>,
    pub hydrate: Option<bool>,
    pub limit: Option<usize>,
    pub offset: Option<usize>,
    pub order_by: Option<Seq<char>>,
    pub order_direction: Option<OrderDirection>,
    pub cursor: Option<Seq<char>>,
    pub page: Option<usize>,
    pub page_size: Option<usize>,
    pub include_diagnostics: Option<bool>,
}

impl View for OperationOptions {
    type V = OptionsModel;

    open spec fn view(&self) -> OptionsModel {
        OptionsModel {
            multi: self.multi,
            atomic: self.atomic,
            create_if_missing: self.create_if_missing,
            return_shape: self.return_shape,
            hydrate: self.hydrate,
            limit: self.limit,
            offset: self.offset,
            order_by: opt_text(self.order_by),
            order_direction: self.order_direction,
            cursor: opt_text(self.cursor),
            page: self.page,
            page_size: self.page_size,
            include_diagnostics: self.include_diagnostics,
        }
    }
}

/// The truth value of an option, or the failure of one that has none.
pub open spec fn option_bool(key: Seq<char>, value: Json) -> Result<bool, Failure> {
    match value.boolean() {
        Some(b) => Ok(b),
        None => Err(bad_input("operation option '"@ + key + "' must be a boolean"@)),
    }
}

/// The text of an option, or the failure of one that has none.
pub open spec fn option_text(key: Seq<char>, value: Json) -> Result<Seq<char>, Failure> {
    match value.text() {
        Some(s) => Ok(s),
        None => Err(bad_input("operation option '"@ + key + "' must be a string"@)),
    }
}

/// The number of an option, or the failure of one that has none or one that is too large.
pub open spec fn option_size(key: Seq<char>, value: Json) -> Result<usize, Failure> {
    match value.unsigned() {
        Some(n) => if n <= usize::MAX {
            Ok(n as usize)
        } else {
            Err(bad_input("operation option '"@ + key + "' is too large for this platform"@))
        },
        None => Err(bad_input("operation option '"@ + key + "' must be an unsigned integer"@)),
    }
}

fn expect_bool(key: &str, value: &JsonValue) -> (r: Result<bool, Error>)
    ensures
        match (option_bool(key@, value@), r) {
            (Ok(a), Ok(b)) => a == b,
            (Err(f), Err(e)) => e@ == f,
            _ => false,
        },
{
    match value.as_bool() {
        Some(b) => Ok(b),
        None => Err(Error::invalid_input(concat3("operation option '", key, "' must be a boolean"))),
    }
}

fn expect_string(key: &str, value: &JsonValue) -> (r: Result<String, Error>)
    ensures
        match (option_text(key@, value@), r) {
            (Ok(a), Ok(b)) => a == b@,
            (Err(f), Err(e)) => e@ == f,
            _ => false,
        },
{
    match value.as_str() {
        Some(s) => Ok(owned(s)),
        None => Err(Error::invalid_input(concat3("operation option '", key, "' must be a string"))),
    }
}

fn expect_usize(key: &str, value: &JsonValue) -> (r: Result<usize, Error>)
    ensures
        match (option_size(key@, value@), r) {
            (Ok(a), Ok(b)) => a == b,
            (Err(f), Err(e)) => e@ == f,
            _ => false,
        },
{
    match value.as_u64() {
        Some(n) => {
            if n <= usize::MAX as u64 {
                Ok(n as usize)
            } else {
                Err(
                    Error::invalid_input(
                        concat3("operation option '", key, "' is too large for this platform"),
                    ),
                )
            }
        },
        None => Err(
            Error::invalid_input(
                concat3("operation option '", key, "' must be an unsigned integer"),
            ),
        ),
    }
}

/// The options once one of them was set, or the failure of one that is unknown or wrong.
pub open spec fn option_set(o: OptionsModel, key: Seq<char>, value: Json) -> Result<
    OptionsModel,
    Failure,
> {
    if key == "multi"@ {
        match option_bool(key, value) {
            Ok(b) => Ok(OptionsModel { multi: Some(b), ..o }),
            Err(f) => Err(f),
        }
    } else if key == "atomic"@ {
        match option_bool(key, value) {
            Ok(b) => Ok(OptionsModel { atomic: Some(b), ..o }),
            Err(f) => Err(f),
        }
    } else if key == "create_if_missing"@ {
        match option_bool(key, value) {
            Ok(b) => Ok(OptionsModel { create_if_missing: Some(b), ..o }),
            Err(f) => Err(f),
        }
    } else if key == "return_shape"@ {
        match option_text(key, value) {
            Ok(s) => match shape_named(s) {
                Some(shape) => Ok(OptionsModel { return_shape: Some(shape), ..o }),
                None => Err(bad_input("unsupported return_shape option '"@ + s + "'"@)),
            },
            Err(f) => Err(f),
        }
    } else if key == "hydrate"@ {
        match option_bool(key, value) {
            Ok(b) => Ok(OptionsModel { hydrate: Some(b), ..o }),
            Err(f) => Err(f),
        }
    } else if key == "limit"@ {
        match option_size(key, value) {
            Ok(n) => Ok(OptionsModel { limit: Some(n), ..o }),
            Err(f) => Err(f),
        }
    } else if key == "offset"@ {
        match option_size(key, value) {
            Ok(n) => Ok(OptionsModel { offset: Some(n), ..o }),
            Err(f) => Err(f),
        }
    } else if key == "order_by"@ {
        match option_text(key, value) {
            Ok(s) => Ok(OptionsModel { order_by: Some(s), ..o }),
            Err(f) => Err(f),
        }
    } else if key == "order_direction"@ {
        match option_text(key, value) {
            Ok(s) => match direction_named(s) {
                Some(direction) => Ok(OptionsModel { order_direction: Some(direction), ..o }),
                None => Err(bad_input("unsupported order_direction option '"@ + s + "'"@)),
            },
            Err(f) => Err(f),
        }
    } else if key == "cursor"@ {
        match option_text(key, value) {
            Ok(s) => Ok(OptionsModel { cursor: Some(s), ..o }),
            Err(f) => Err(f),
        }
    } else if key == "page"@ {
        match option_size(key, value) {
            Ok(n) => Ok(OptionsModel { page: Some(n), ..o }),
            Err(f) => Err(f),
        }
    } else if key == "page_size"@ {
        match option_size(key, value) {
            Ok(n) => Ok(OptionsModel { page_size: Some(n), ..o }),
            Err(f) => Err(f),
        }
    } else if key == "include_diagnostics"@ {
        match option_bool(key, value) {
            Ok(b) => Ok(OptionsModel { include_diagnostics: Some(b), ..o }),
            Err(f) => Err(f),
        }
    } else {
        Err(bad_input("unknown operation option '"@ + key + "'"@))
    }
}

/// The options once those from the `i`-th field on were set.
pub open spec fn options_set_from(o: OptionsModel, fields: Map<Seq<char>, Json>, i: int) -> Result<
    OptionsModel,
    Failure,
>
    decreases key_order(fields.dom()).len() - i,
{
    let keys = key_order(fields.dom());
    if i >= keys.len() {
        Ok(o)
    } else {
        match option_set(o, keys[i], fields[keys[i]]) {
            Ok(more) => options_set_from(more, fields, i + 1),
            Err(f) => Err(f),
        }
    }
}

/// The options that a JSON value gives: the fields of an object, in the order of their keys.
pub open spec fn json_options(value: Json) -> Result<OptionsModel, Failure> {
    match value {
        Json::Object(fields) => options_set_from(no_options()@, fields, 0),
        _ => Err(bad_input("operation options must be a JSON object"@)),
    }
}

/// The modifiers of the options, where one of them is given.
pub open spec fn options_modifiers(o: OperationOptions) -> Option<QueryModifiers> {
    if o.limit is None && o.offset is None && o.order_by is None && o.order_direction is None
        && o.cursor is None && o.page is None && o.page_size is None {
        None
    } else {
        Some(
            QueryModifiers {
                limit: o.limit,
                offset: o.offset,
                order_by: o.order_by,
                order_direction: o.order_direction,
                cursor: o.cursor,
                page: o.page,
                page_size: o.page_size,
            },
        )
    }
}

impl OperationOptions {
    pub fn new() -> (r: Self)
        ensures
            r == no_options(),
    {
        OperationOptions::default()
    }

    pub fn multi(self, multi: bool) -> (r: Self)
        ensures
            r == (OperationOptions { multi: Some(multi), ..self }),
    {
        OperationOptions { multi: Some(multi), ..self }
    }

    pub fn atomic(self, atomic: bool) -> (r: Self)
        ensures
            r == (OperationOptions { atomic: Some(atomic), ..self }),
    {
        OperationOptions { atomic: Some(atomic), ..self }
    }

    pub fn create_if_missing(self, create_if_missing: bool) -> (r: Self)
        ensures
            r == (OperationOptions { create_if_missing: Some(create_if_missing), ..self }),
    {
        OperationOptions { create_if_missing: Some(create_if_missing), ..self }
    }

    pub fn return_shape(self, return_shape: ReturnShape) -> (r: Self)
        ensures
            r == (OperationOptions { return_shape: Some(return_shape), ..self }),
    {
        OperationOptions { return_shape: Some(return_shape), ..self }
    }

    pub fn hydrate(self, hydrate: bool) -> (r: Self)
        ensures
            r == (OperationOptions { hydrate: Some(hydrate), ..self }),
    {
        OperationOptions { hydrate: Some(hydrate), ..self }
    }

    pub fn limit(self, limit: usize) -> (r: Self)
        ensures
            r == (OperationOptions { limit: Some(limit), ..self }),
    {
        OperationOptions { limit: Some(limit), ..self }
    }

    pub fn offset(self, offset: usize) -> (r: Self)
        ensures
            r == (OperationOptions { offset: Some(offset), ..self }),
    {
        OperationOptions { offset: Some(offset), ..self }
    }

    pub fn order_by(self, order_by: &str) -> (r: Self)
        ensures
            r@ == (OptionsModel { order_by: Some(order_by@), ..self@ }),
    {
        OperationOptions { order_by: Some(owned(order_by)), ..self }
    }

    pub fn order_direction(self, order_direction: OrderDirection) -> (r: Self)
        ensures
            r == (OperationOptions { order_direction: Some(order_direction), ..self }),
    {
        OperationOptions { order_direction: Some(order_direction), ..self }
    }

    pub fn cursor(self, cursor: &str) -> (r: Self)
        ensures
            r@ == (OptionsModel { cursor: Some(cursor@), ..self@ }),
    {
        OperationOptions { cursor: Some(owned(cursor)), ..self }
    }

    pub fn page(self, page: usize) -> (r: Self)
        ensures
            r == (OperationOptions { page: Some(page), ..self }),
    {
        OperationOptions { page: Some(page), ..self }
    }

    pub fn page_size(self, page_size: usize) -> (r: Self)
        ensures
            r == (OperationOptions { page_size: Some(page_size), ..self }),
    {
        OperationOptions { page_size: Some(page_size), ..self }
    }

    pub fn include_diagnostics(self, include_diagnostics: bool) -> (r: Self)
        ensures
            r == (OperationOptions { include_diagnostics: Some(include_diagnostics), ..self }),
    {
        OperationOptions { include_diagnostics: Some(include_diagnostics), ..self }
    }

    /// Sets one of the options.
    fn set(&mut self, key: &str, value: &JsonValue) -> (r: Result<(), Error>)
        ensures
            match (option_set(old(self)@, key@, value@), r) {
                (Ok(o), Ok(())) => final(self)@ == o,
                (Err(f), Err(e)) => e@ == f,
                _ => false,
            },
    {
        if same(key, "multi") {
            match expect_bool(key, value) {
                Ok(v) => {
                    self.multi = Some(v);
                    Ok(())
                },
                Err(e) => Err(e),
            }
        } else if same(key, "atomic") {
            match expect_bool(key, value) {
                Ok(v) => {
                    self.atomic = Some(v);
                    Ok(())
                },
                Err(e) => Err(e),
            }
        } else if same(key, "create_if_missing") {
            match expect_bool(key, value) {
                Ok(v) => {
                    self.create_if_missing = Some(v);
                    Ok(())
                },
                Err(e) => Err(e),
            }
        } else if same(key, "return_shape") {
            match expect_string(key, value) {
                Ok(s) => match parse_shape(s.as_str()) {
                    Some(shape) => {
                        self.return_shape = Some(shape);
                        Ok(())
                    },
                    None => Err(
                        Error::invalid_input(
                            concat3("unsupported return_shape option '", s.as_str(), "'"),
                        ),
                    ),
                },
                Err(e) => Err(e),
            }
        } else if same(key, "hydrate") {
            match expect_bool(key, value) {
                Ok(v) => {
                    self.hydrate = Some(v);
                    Ok(())
                },
                Err(e) => Err(e),
            }
        } else if same(key, "limit") {
            match expect_usize(key, value) {
                Ok(v) => {
                    self.limit = Some(v);
                    Ok(())
                },
                Err(e) => Err(e),
            }
        } else if same(key, "offset") {
            match expect_usize(key, value) {
                Ok(v) => {
                    self.offset = Some(v);
                    Ok(())
                },
                Err(e) => Err(e),
            }
        } else if same(key, "order_by") {
            match expect_string(key, value) {
                Ok(v) => {
                    self.order_by = Some(v);
                    Ok(())
                },
                Err(e) => Err(e),
            }
        } else if same(key, "order_direction") {
            match expect_string(key, value) {
                Ok(s) => match parse_direction(s.as_str()) {
                    Some(direction) => {
                        self.order_direction = Some(direction);
                        Ok(())
                    },
                    None => Err(
                        Error::invalid_input(
                            concat3("unsupported order_direction option '", s.as_str(), "'"),
                        ),
                    ),
                },
                Err(e) => Err(e),
            }
        } else if same(key, "cursor") {
            match expect_string(key, value) {
                Ok(v) => {
                    self.cursor = Some(v);
                    Ok(())
                },
                Err(e) => Err(e),
            }
        } else if same(key, "page") {
            match expect_usize(key, value) {
                Ok(v) => {
                    self.page = Some(v);
                    Ok(())
                },
                Err(e) => Err(e),
            }
        } else if same(key, "page_size") {
            match expect_usize(key, value) {
                Ok(v) => {
                    self.page_size = Some(v);
                    Ok(())
                },
                Err(e) => Err(e),
            }
        } else if same(key, "include_diagnostics") {
            match expect_bool(key, value) {
                Ok(v) => {
                    self.include_diagnostics = Some(v);
                    Ok(())
                },
                Err(e) => Err(e),
            }
        } else {
            Err(Error::invalid_input(concat3("unknown operation option '", key, "'")))
        }
    }

    pub fn from_json(value: &JsonValue) -> (r: Result<Self, Error>)
        ensures
            match (json_options(value@), r) {
                (Ok(o), Ok(options)) => options@ == o,
                (Err(f), Err(e)) => e@ == f,
                _ => false,
            },
    {
        broadcast use group_value;

        let fields = match value {
            JsonValue::Object(fields) => fields,
            _ => {
                return Err(
                    Error::invalid_input(owned("operation options must be a JSON object")),
                );
            },
        };
        let ghost all = json_fields(*fields);
        assert(all.dom() =~= fields@.dom());
        let mut options = OperationOptions::default();
        let n: usize = fields.len();
        let mut i: usize = 0;
        while i < n
            invariant
                all == json_fields(*fields),
                all.dom() == fields@.dom(),
                n == fields.keys().len(),
                i <= n,
                options_set_from(no_options()@, all, 0) == options_set_from(
                    options@,
                    all,
                    i as int,
                ),
                value@ == Json::Object(all),
            decreases n - i,
        {
            match options.set(fields.key_at(i).as_str(), fields.value_at(i)) {
                Ok(()) => {},
                Err(e) => {
                    return Err(e);
                },
            }
            i += 1;
        }
        Ok(options)
    }

    pub fn query_modifiers(&self) -> (r: Option<QueryModifiers>)
        ensures
            r == options_modifiers(*self),
    {
        if self.limit.is_none() && self.offset.is_none() && self.order_by.is_none()
            && self.order_direction.is_none() && self.cursor.is_none() && self.page.is_none()
            && self.page_size.is_none() {
            return None;
        }
        Some(
            QueryModifiers {
                limit: self.limit,
                offset: self.offset,
                order_by: copy_opt(&self.order_by),
                order_direction: self.order_direction,
                cursor: copy_opt(&self.cursor),
                page: self.page,
                page_size: self.page_size,
            },
        )
    }

    /// Whether a batch is written as a whole or not at all; it is unless the options say
    /// otherwise.
    pub fn atomic_enabled(&self) -> (r: bool)
        ensures
            r == (self.atomic != Some(false)),
    {
        match self.atomic {
            Some(atomic) => atomic,
            None => true,
        }
    }
}

impl FromSpecImpl<QueryModifiers> for OperationOptions {
    open spec fn obeys_from_spec() -> bool {
        false
    }

    open spec fn from_spec(v: QueryModifiers) -> Self {
        arbitrary()
    }
}

impl From<QueryModifiers> for OperationOptions {
    fn from(modifiers: QueryModifiers) -> (r: Self)
        ensures
            r == (OperationOptions {
                limit: modifiers.limit,
                offset: modifiers.offset,
                order_by: modifiers.order_by,
                order_direction: modifiers.order_direction,
                cursor: modifiers.cursor,
                page: modifiers.page,
                page_size: modifiers.page_size,
                ..no_options()
            }),
    {
        OperationOptions {
            limit: modifiers.limit,
            offset: modifiers.offset,
            order_by: modifiers.order_by,
            order_direction: modifiers.order_direction,
            cursor: modifiers.cursor,
            page: modifiers.page,
            page_size: modifiers.page_size,
            ..OperationOptions::default()
        }
    }
}

impl FromSpecImpl<()> for OperationOptions {
    open spec fn obeys_from_spec() -> bool {
        false
    }

    open spec fn from_spec(v: ()) -> Self {
        arbitrary()
    }
}

impl From<()> for OperationOptions {
    fn from(value: ()) -> (r: Self)
        ensures
            r == no_options(),
    {
        OperationOptions::default()
    }
}

impl FromSpecImpl<Option<OperationOptions>> for OperationOptions {
    open spec fn obeys_from_spec() -> bool {
        false
    }

    open spec fn from_spec(v: Option<OperationOptions>) -> Self {
        arbitrary()
    }
}

impl From<Option<OperationOptions>> for OperationOptions {
    fn from(value: Option<OperationOptions>) -> (r: Self)
        ensures
            r == (match value {
                Some(options) => options,
                None => no_options(),
            }),
    {
        match value {
            Some(options) => options,
            None => OperationOptions::default(),
        }
    }
}

/// The options taken from modifiers give the modifiers back, unless none of them is given.
pub proof fn law_modifiers_round_trip(modifiers: QueryModifiers, options: OperationOptions)
    requires
        options == (OperationOptions {
            limit: modifiers.limit,
            offset: modifiers.offset,
            order_by: modifiers.order_by,
            order_direction: modifiers.order_direction,
            cursor: modifiers.cursor,
            page: modifiers.page,
            page_size: modifiers.page_size,
            ..no_options()
        }),
    ensures
        options_modifiers(options) == Some(modifiers) || options_modifiers(options) is None && options
            == no_options(),
{
}

} // verus!
