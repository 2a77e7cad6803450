//! What an operation is about, put together from its filters.
use crate::command::model::{
    is_empty_object, lemma_many_model, filter_models, FilterModel, OperationFilter, ReturnShape,
};
use crate::error::{bad_input, Error, Failure};
use crate::pointer::{
    format_pointer, is_drawer_only, names_drawer_only, pointer_parts, pointer_text,
    try_parse_pointer,
};
use crate::text::{concat2, concat5, opt_str, opt_text, owned, same, texts, trim_start_char, without_leading};
use crate::value::{group_value, json_fields, opt_value, Json, JsonValue};
use vstd::prelude::*;

verus! {

/// A record: by its pointer, or by its key in the drawer of the selection.
#[derive(Debug, PartialEq, Eq)]
pub enum PointerTarget {
    Full(String),
    Local(String),
}

/// The model of a target.
pub enum TargetModel {
    Full(Seq<char>),
    Local(Seq<char>),
}

impl View for PointerTarget {
    type V = TargetModel;

    open spec fn view(&self) -> TargetModel {
        match self {
            PointerTarget::Full(pointer) => TargetModel::Full(pointer@),
            PointerTarget::Local(key) => TargetModel::Local(key@),
        }
    }
}

/// The models of a sequence of targets.
pub open spec fn targets(all: Seq<PointerTarget>) -> Seq<TargetModel> {
    Seq::new(all.len(), |i: int| all[i]@)
}

/// What an operation is about.
#[derive(Debug, PartialEq, Eq)]
pub struct OperationSelection {
    pub drawer_name: Option<String>,
    pub query: Option<JsonValue>,
    pub pointers: Vec<PointerTarget>,
}

/// The model of a selection.
#[verifier::ext_equal]
pub struct SelectionModel {
    pub drawer: Option<Seq<char>>,
    pub query: Option<Json>,
    pub pointers: Seq<TargetModel>,
}

impl View for OperationSelection {
    type V = SelectionModel;

    open spec fn view(&self) -> SelectionModel {
        SelectionModel {
            drawer: opt_text(self.drawer_name),
            query: opt_value(self.query),
            pointers: targets(self.pointers@),
        }
    }
}

/// The selection of nothing.
pub open spec fn no_selection() -> SelectionModel {
    SelectionModel { drawer: None, query: None, pointers: Seq::empty() }
}

impl Default for OperationSelection {
    fn default() -> (r: Self)
        ensures
            r@ == no_selection(),
    {
        let r = OperationSelection { drawer_name: None, query: None, pointers: Vec::new() };
        assert(r@ =~= no_selection());
        r
    }
}

/// The failure of filters that name two drawers.
pub open spec fn two_drawers(a: Seq<char>, b: Seq<char>) -> Failure {
    bad_input("conflicting drawer filters '"@ + a + "' and '"@ + b + "'"@)
}

/// The selection with a drawer, whose name may start with marks.
pub open spec fn with_drawer(s: SelectionModel, name: Seq<char>) -> Result<SelectionModel, Failure> {
    let bare = without_leading(name, '@');
    match s.drawer {
        Some(existing) => if existing != bare {
            Err(two_drawers(existing, bare))
        } else {
            Ok(s)
        },
        None => Ok(SelectionModel { drawer: Some(bare), ..s }),
    }
}

/// The selection with a pointer. One that names a drawer only selects the drawer; one that names
/// drawer and record selects both; any other is a key in the drawer.
pub open spec fn with_pointer(s: SelectionModel, pointer: Seq<char>) -> Result<
    SelectionModel,
    Failure,
> {
    if names_drawer_only(pointer) {
        with_drawer(s, without_leading(pointer, '@'))
    } else {
        match pointer_parts(pointer) {
            Some((drawer, key)) => match with_drawer(s, drawer) {
                Ok(t) => Ok(
                    SelectionModel {
                        pointers: t.pointers.push(TargetModel::Full(pointer_text(drawer, key))),
                        ..t
                    },
                ),
                Err(f) => Err(f),
            },
            None => Ok(
                SelectionModel { pointers: s.pointers.push(TargetModel::Local(pointer)), ..s },
            ),
        }
    }
}

/// The failure of filters with two queries.
pub open spec fn two_queries() -> Failure {
    bad_input("operation filters may contain only one query object"@)
}

/// The selection with a query. Null and the empty object ask for nothing.
pub open spec fn with_query(s: SelectionModel, query: Json) -> Result<SelectionModel, Failure> {
    if query is Null || is_empty_object(query) {
        Ok(s)
    } else if s.query is Some {
        Err(two_queries())
    } else {
        Ok(SelectionModel { query: Some(query), ..s })
    }
}

/// The selection with a filter.
pub open spec fn with_filter(s: SelectionModel, filter: FilterModel) -> Result<
    SelectionModel,
    Failure,
>
    decreases filter, 0int,
{
    match filter {
        FilterModel::Nothing => Ok(s),
        FilterModel::Drawer(name) => with_drawer(s, name),
        FilterModel::Pointer(pointer) => with_pointer(s, pointer),
        FilterModel::Query(query) => with_query(s, query),
        FilterModel::Many(filters) => with_filters(s, filters, 0),
    }
}

/// The selection with the filters from the `i`-th on.
pub open spec fn with_filters(s: SelectionModel, filters: Seq<FilterModel>, i: int) -> Result<
    SelectionModel,
    Failure,
>
    decreases filters, filters.len() - i,
{
    if i < 0 || i >= filters.len() {
        Ok(s)
    } else {
        match with_filter(s, filters[i]) {
            Ok(t) => with_filters(t, filters, i + 1),
            Err(f) => Err(f),
        }
    }
}

/// What a filter selects.
pub open spec fn selected(filter: FilterModel) -> Result<SelectionModel, Failure> {
    with_filter(no_selection(), filter)
}

/// The failure of an operation without a drawer.
pub open spec fn no_drawer(operation: Seq<char>) -> Failure {
    bad_input(operation + " requires a drawer filter"@)
}

/// The pointer of a target.
pub open spec fn target_pointer(drawer: Option<Seq<char>>, target: TargetModel) -> Result<
    Seq<char>,
    Failure,
> {
    match target {
        TargetModel::Full(pointer) => Ok(pointer),
        TargetModel::Local(key) => match drawer {
            Some(name) => Ok(pointer_text(name, key)),
            None => Err(no_drawer("local pointer resolution"@)),
        },
    }
}

/// The pointers, and those of the targets from the `i`-th on.
pub open spec fn resolved_from(
    drawer: Option<Seq<char>>,
    all: Seq<TargetModel>,
    done: Seq<Seq<char>>,
    i: int,
) -> Result<Seq<Seq<char>>, Failure>
    decreases all.len() - i,
{
    if i < 0 || i >= all.len() {
        Ok(done)
    } else {
        match target_pointer(drawer, all[i]) {
            Ok(pointer) => resolved_from(drawer, all, done.push(pointer), i + 1),
            Err(f) => Err(f),
        }
    }
}

/// The pointers of a selection.
pub open spec fn resolved(s: SelectionModel) -> Result<Seq<Seq<char>>, Failure> {
    resolved_from(s.drawer, s.pointers, Seq::empty(), 0)
}

impl OperationSelection {
    pub fn from_filter(filter: &OperationFilter) -> (r: Result<Self, Error>)
        ensures
            match (selected(filter@), r) {
                (Ok(s), Ok(selection)) => selection@ == s,
                (Err(f), Err(e)) => e@ == f,
                _ => false,
            },
    {
        let mut selection = OperationSelection::default();
        match selection.merge_filter(filter) {
            Ok(()) => Ok(selection),
            Err(e) => Err(e),
        }
    }

    fn merge_filter(&mut self, filter: &OperationFilter) -> (r: Result<(), Error>)
        ensures
            match (with_filter(old(self)@, filter@), r) {
                (Ok(s), Ok(())) => final(self)@ == s,
                (Err(f), Err(e)) => e@ == f,
                _ => false,
            },
        decreases filter,
    {
        match filter {
            OperationFilter::Empty => Ok(()),
            OperationFilter::Drawer(name) => self.merge_drawer(name.as_str()),
            OperationFilter::Pointer(pointer) => self.merge_pointer(pointer.as_str()),
            OperationFilter::Query(query) => self.merge_query(query),
            OperationFilter::Many(filters) => {
                let ghost all = filter_models(filters@);
                let ghost start = self@;
                proof {
                    lemma_many_model(*filters);
                }
                let mut i: usize = 0;
                while i < filters.len()
                    invariant
                        *filter == OperationFilter::Many(*filters),
                        filter@ == FilterModel::Many(all),
                        all == filter_models(filters@),
                        start == old(self)@,
                        i <= filters@.len(),
                        with_filters(start, all, 0) == with_filters(self@, all, i as int),
                    decreases filters@.len() - i,
                {
                    assert(all[i as int] == filters@[i as int]@);
                    assert(decreases_to!(*filter => filter->Many_0));
                    assert(decreases_to!(filter->Many_0 => filter->Many_0@));
                    assert(decreases_to!(filters@ => filters@[i as int]));
                    match self.merge_filter(&filters[i]) {
                        Ok(()) => {},
                        Err(e) => {
                            return Err(e);
                        },
                    }
                    i += 1;
                }
                Ok(())
            },
        }
    }

    fn merge_drawer(&mut self, drawer_name: &str) -> (r: Result<(), Error>)
        ensures
            match (with_drawer(old(self)@, drawer_name@), r) {
                (Ok(s), Ok(())) => final(self)@ == s,
                (Err(f), Err(e)) => e@ == f && final(self)@ == old(self)@,
                _ => false,
            },
    {
        let bare = trim_start_char(drawer_name, '@');
        match &self.drawer_name {
            Some(existing) => {
                if !same(existing.as_str(), bare.as_str()) {
                    return Err(
                        Error::invalid_input(
                            concat5(
                                "conflicting drawer filters '",
                                existing.as_str(),
                                "' and '",
                                bare.as_str(),
                                "'",
                            ),
                        ),
                    );
                }
            },
            None => {
                self.drawer_name = Some(bare);
            },
        }
        Ok(())
    }

    fn merge_pointer(&mut self, pointer: &str) -> (r: Result<(), Error>)
        ensures
            match (with_pointer(old(self)@, pointer@), r) {
                (Ok(s), Ok(())) => final(self)@ == s,
                (Err(f), Err(e)) => e@ == f,
                _ => false,
            },
    {
        if is_drawer_only(pointer) {
            let bare = trim_start_char(pointer, '@');
            return self.merge_drawer(bare.as_str());
        }
        match try_parse_pointer(pointer) {
            Some((drawer, key)) => {
                match self.merge_drawer(drawer.as_str()) {
                    Ok(()) => {},
                    Err(e) => {
                        return Err(e);
                    },
                }
                let ghost before = self@;
                self.pointers.push(
                    PointerTarget::Full(format_pointer(drawer.as_str(), key.as_str())),
                );
                assert(self@.pointers =~= before.pointers.push(
                    TargetModel::Full(pointer_text(drawer@, key@)),
                ));
            },
            None => {
                let ghost before = self@;
                self.pointers.push(PointerTarget::Local(owned(pointer)));
                assert(self@.pointers =~= before.pointers.push(TargetModel::Local(pointer@)));
            },
        }
        Ok(())
    }

    fn merge_query(&mut self, query: &JsonValue) -> (r: Result<(), Error>)
        ensures
            match (with_query(old(self)@, query@), r) {
                (Ok(s), Ok(())) => final(self)@ == s,
                (Err(f), Err(e)) => e@ == f,
                _ => false,
            },
    {
        broadcast use group_value;

        match query {
            JsonValue::Null => {
                return Ok(());
            },
            JsonValue::Object(fields) => {
                assert(json_fields(*fields).dom() =~= fields@.dom());
                if fields.is_empty() {
                    return Ok(());
                }
            },
            _ => {},
        }
        if self.query.is_some() {
            return Err(
                Error::invalid_input(
                    owned("operation filters may contain only one query object"),
                ),
            );
        }
        self.query = Some(query.clone());
        Ok(())
    }

    pub fn required_drawer(&self, operation_name: &str) -> (r: Result<String, Error>)
        ensures
            match r {
                Ok(name) => self@.drawer == Some(name@),
                Err(e) => self@.drawer is None && e@ == no_drawer(operation_name@),
            },
    {
        match &self.drawer_name {
            Some(name) => Ok(name.clone()),
            None => Err(
                Error::invalid_input(concat2(operation_name, " requires a drawer filter")),
            ),
        }
    }

    pub fn resolved_pointers(&self) -> (r: Result<Vec<String>, Error>)
        ensures
            match (resolved(self@), r) {
                (Ok(pointers), Ok(all)) => texts(all@) == pointers,
                (Err(f), Err(e)) => e@ == f,
                _ => false,
            },
    {
        let ghost s = self@;
        let mut out: Vec<String> = Vec::new();
        let mut i: usize = 0;
        assert(texts(out@) =~= Seq::empty());
        while i < self.pointers.len()
            invariant
                s == self@,
                i <= self.pointers@.len(),
                resolved(s) == resolved_from(s.drawer, s.pointers, texts(out@), i as int),
            decreases self.pointers@.len() - i,
        {
            let ghost before = out@;
            assert(s.pointers[i as int] == self.pointers@[i as int]@);
            match &self.pointers[i] {
                PointerTarget::Full(pointer) => {
                    out.push(pointer.clone());
                    assert(texts(out@) =~= texts(before).push(pointer@));
                },
                PointerTarget::Local(key) => {
                    match self.required_drawer("local pointer resolution") {
                        Ok(drawer) => {
                            let pointer = format_pointer(drawer.as_str(), key.as_str());
                            let ghost named = pointer@;
                            out.push(pointer);
                            assert(texts(out@) =~= texts(before).push(named));
                        },
                        Err(e) => {
                            return Err(e);
                        },
                    }
                },
            }
            i += 1;
        }
        Ok(out)
    }
}

/// The form in which a read is answered.
#[derive(Debug, Clone, Copy, PartialEq, Eq, Structural)]
pub enum ReturnShapeResolution {
    Record,
    Records,
    Pointers,
    Exists,
}

/// The form in which a read is answered: the one that was asked for, or one record where one
/// pointer and no query was given, else a list of records.
pub open spec fn read_shape(asked: Option<ReturnShape>, s: SelectionModel) -> ReturnShapeResolution {
    match asked {
        Some(ReturnShape::Record) => ReturnShapeResolution::Record,
        Some(ReturnShape::Pointers) => ReturnShapeResolution::Pointers,
        Some(ReturnShape::Exists) => ReturnShapeResolution::Exists,
        _ => if s.pointers.len() == 1 && s.query is None {
            ReturnShapeResolution::Record
        } else {
            ReturnShapeResolution::Records
        },
    }
}

pub fn resolve_read_shape(return_shape: Option<ReturnShape>, selection: &OperationSelection) -> (r:
    ReturnShapeResolution)
    ensures
        r == read_shape(return_shape, selection@),
{
    match return_shape {
        Some(ReturnShape::Record) => ReturnShapeResolution::Record,
        Some(ReturnShape::Pointers) => ReturnShapeResolution::Pointers,
        Some(ReturnShape::Exists) => ReturnShapeResolution::Exists,
        _ => {
            if selection.pointers.len() == 1 && selection.query.is_none() {
                ReturnShapeResolution::Record
            } else {
                ReturnShapeResolution::Records
            }
        },
    }
}

/// The pointer of a record: from its identifier where that is one, else from the identifier and
/// the drawer.
pub open spec fn pointer_of_record(record: Json, drawer: Option<Seq<char>>) -> Option<Seq<char>> {
    match record.get_text("_id"@) {
        None => None,
        Some(id) => match pointer_parts(id) {
            Some((name, key)) => Some(pointer_text(name, key)),
            None => match drawer {
                Some(name) => Some(pointer_text(name, id)),
                None => None,
            },
        },
    }
}

pub fn record_pointer(record: &JsonValue, fallback_drawer_name: Option<&str>) -> (r: Option<String>)
    ensures
        opt_text(r) == pointer_of_record(record@, opt_str(fallback_drawer_name)),
{
    let id = match record.get_str("_id") {
        Some(id) => id,
        None => {
            return None;
        },
    };
    match try_parse_pointer(id) {
        Some((name, key)) => Some(format_pointer(name.as_str(), key.as_str())),
        None => match fallback_drawer_name {
            Some(name) => Some(format_pointer(name, id)),
            None => None,
        },
    }
}

} // verus!
