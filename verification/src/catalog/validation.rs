//! The names that tenants, databases, schemas and drawers can have.
use crate::error::{bad_input, outcome, text_outcome, Error, Failure};
use crate::paths::{
    components, join_path, part_models, path_joined, path_parts, PartModel, PathPart,
};
use crate::text::{
    concat2, concat3, concat4, ends_with, has_char, has_prefix, has_suffix, is_blank, owned, same,
    split, split_parts, starts_with, texts, trim, trimmed,
};
use vstd::prelude::*;

verus! {

/// Whether a part of a name is empty or stands for something else.
pub open spec fn reserved_segment(segment: Seq<char>) -> bool {
    segment.len() == 0 || segment == "."@ || segment == ".."@ || segment == ".catalog"@
}

pub fn is_reserved_or_empty_segment(segment: &str) -> (r: bool)
    ensures
        r == reserved_segment(segment@),
{
    segment.is_empty() || same(segment, ".") || same(segment, "..") || same(segment, ".catalog")
}

/// Whether one of the parts is reserved.
pub open spec fn any_reserved(parts: Seq<Seq<char>>) -> bool {
    exists|i: int| 0 <= i < parts.len() && reserved_segment(#[trigger] parts[i])
}

fn has_reserved(parts: &Vec<String>) -> (r: bool)
    ensures
        r == any_reserved(texts(parts@)),
{
    let ghost names = texts(parts@);
    let mut i: usize = 0;
    while i < parts.len()
        invariant
            names == texts(parts@),
            i <= parts.len(),
            forall|j: int| 0 <= j < i ==> !reserved_segment(#[trigger] names[j]),
        decreases parts.len() - i,
    {
        assert(names[i as int] == parts@[i as int]@);
        if is_reserved_or_empty_segment(parts[i].as_str()) {
            return true;
        }
        i = i + 1;
    }
    false
}

/// Whether a text is a path below the root, of parts that are not reserved.
pub open spec fn is_plain_path(raw: Seq<char>) -> bool {
    let s = trimmed(raw);
    &&& s.len() > 0
    &&& !starts_with(s, "/"@)
    &&& !starts_with(s, "\\"@)
    &&& !s.contains('\\')
    &&& !any_reserved(split_parts(s, '/'))
}

fn plain_path(raw: &str) -> (r: bool)
    ensures
        r == is_plain_path(raw@),
{
    let bare = trim(raw);
    let s = bare.as_str();
    if s.is_empty() || has_prefix(s, "/") || has_prefix(s, "\\") || has_char(s, '\\') {
        return false;
    }
    let parts = split(s, '/');
    !has_reserved(&parts)
}

/// Whether a text is a name of one part.
pub open spec fn is_plain_token(raw: Seq<char>) -> bool {
    let s = trimmed(raw);
    &&& s.len() > 0
    &&& !s.contains('/')
    &&& !s.contains('\\')
    &&& !reserved_segment(s)
    &&& !ends_with(s, "_index"@)
    &&& !ends_with(s, "_meta"@)
}

pub open spec fn invalid_token(label: Seq<char>, value: Seq<char>) -> Failure {
    bad_input("Invalid "@ + label + " name: "@ + value)
}

/// What is said of a name of one part.
pub open spec fn token_check(value: Seq<char>, label: Seq<char>) -> Result<(), Failure> {
    if is_plain_token(value) {
        Ok(())
    } else {
        Err(invalid_token(label, value))
    }
}

pub fn validate_catalog_token(value: &str, label: &str) -> (r: Result<(), Error>)
    ensures
        outcome(r) == token_check(value@, label@),
{
    let bare = trim(value);
    let s = bare.as_str();
    if s.is_empty() || has_char(s, '/') || has_char(s, '\\') || is_reserved_or_empty_segment(s)
        || has_suffix(s, "_index") || has_suffix(s, "_meta") {
        return Err(Error::invalid_input(concat4("Invalid ", label, " name: ", value)));
    }
    Ok(())
}

/// What is said of a database's name.
pub open spec fn database_check(name: Seq<char>) -> Result<(), Failure> {
    if is_plain_path(name) {
        Ok(())
    } else {
        Err(bad_input("Invalid database name: "@ + name))
    }
}

pub fn validate_database_name(database_name: &str) -> (r: Result<(), Error>)
    ensures
        outcome(r) == database_check(database_name@),
{
    if plain_path(database_name) {
        Ok(())
    } else {
        Err(Error::invalid_input(concat2("Invalid database name: ", database_name)))
    }
}

pub fn validate_schema_name(schema_name: &str) -> (r: Result<(), Error>)
    ensures
        outcome(r) == token_check(schema_name@, "schema"@),
{
    validate_catalog_token(schema_name, "schema")
}

pub fn validate_drawer_name(drawer_name: &str) -> (r: Result<(), Error>)
    ensures
        outcome(r) == token_check(drawer_name@, "drawer"@),
{
    validate_catalog_token(drawer_name, "drawer")
}

pub fn validate_tenant_identifier(tenant_id: &str) -> (r: Result<(), Error>)
    ensures
        outcome(r) == token_check(tenant_id@, "tenant"@),
{
    validate_catalog_token(tenant_id, "tenant")
}

/// What is said of the location that a route leads to.
pub open spec fn location_check(location: Seq<char>) -> Result<(), Failure> {
    if is_plain_path(location) {
        Ok(())
    } else {
        Err(bad_input("Invalid catalog route location: "@ + location))
    }
}

pub fn validate_catalog_location(location: &str) -> (r: Result<(), Error>)
    ensures
        outcome(r) == location_check(location@),
{
    if plain_path(location) {
        Ok(())
    } else {
        Err(Error::invalid_input(concat2("Invalid catalog route location: ", location)))
    }
}

/// Whether a path is one name.
pub open spec fn is_single_name(value: Seq<char>) -> bool {
    path_parts(value).len() == 1 && path_parts(value)[0] is Normal
}

/// What is said of a part of a coordinate.
pub open spec fn coordinate_check(label: Seq<char>, value: Seq<char>) -> Result<(), Failure> {
    if trimmed(value).len() == 0 {
        Err(bad_input("Storage coordinate "@ + label + " cannot be empty"@))
    } else if !is_single_name(value) {
        Err(bad_input("Storage coordinate "@ + label + " must be a single path segment"@))
    } else {
        Ok(())
    }
}

pub fn validate_storage_coordinate_component(label: &str, value: &str) -> (r: Result<(), Error>)
    ensures
        outcome(r) == coordinate_check(label@, value@),
{
    if is_blank(value) {
        return Err(
            Error::invalid_input(concat3("Storage coordinate ", label, " cannot be empty")),
        );
    }
    let parts = components(value);
    let single = if parts.len() == 1 {
        assert(part_models(parts@)[0] == parts@[0]@);
        match &parts[0] {
            PathPart::Normal(_) => true,
            _ => false,
        }
    } else {
        false
    };
    if !single {
        return Err(
            Error::invalid_input(
                concat3("Storage coordinate ", label, " must be a single path segment"),
            ),
        );
    }
    Ok(())
}

pub fn catalog_location_path(root_directory: &str, location: &str) -> (r: String)
    ensures
        r@ == path_joined(root_directory@, location@),
{
    join_path(root_directory, location)
}

/// The path behind the first `n` parts of a database's name.
pub open spec fn path_along(root: Seq<char>, parts: Seq<PartModel>, n: int) -> Seq<char>
    decreases n,
{
    if n <= 0 {
        root
    } else {
        match parts[n - 1] {
            PartModel::Normal(name) => path_joined(path_along(root, parts, n - 1), name),
            _ => path_along(root, parts, n - 1),
        }
    }
}

pub open spec fn all_normal(parts: Seq<PartModel>) -> bool {
    forall|i: int| 0 <= i < parts.len() ==> (#[trigger] parts[i]) is Normal
}

/// Where the database of a name is.
pub open spec fn database_place(root: Seq<char>, name: Seq<char>) -> Result<Seq<char>, Failure> {
    let parts = path_parts(name);
    if trimmed(name).len() == 0 {
        Err(bad_input("Database name cannot be empty"@))
    } else if !all_normal(parts) {
        Err(bad_input("Database name must contain only normal path segments"@))
    } else {
        Ok(path_along(root, parts, parts.len() as int))
    }
}

pub fn database_path_from_name(root_directory: &str, database_name: &str) -> (r: Result<
    String,
    Error,
>)
    ensures
        text_outcome(r) == database_place(root_directory@, database_name@),
{
    if is_blank(database_name) {
        return Err(Error::invalid_input(owned("Database name cannot be empty")));
    }
    let parts = components(database_name);
    let ghost models = path_parts(database_name@);
    let mut path = owned(root_directory);
    let mut i: usize = 0;
    while i < parts.len()
        invariant
            i <= parts.len(),
            models == part_models(parts@),
            models == path_parts(database_name@),
            trimmed(database_name@).len() > 0,
            forall|j: int| 0 <= j < i ==> (#[trigger] models[j]) is Normal,
            path@ == path_along(root_directory@, models, i as int),
        decreases parts.len() - i,
    {
        assert(models[i as int] == parts@[i as int]@);
        match &parts[i] {
            PathPart::Normal(name) => {
                path = join_path(path.as_str(), name.as_str());
            },
            _ => {
                assert(!(models[i as int] is Normal));
                return Err(
                    Error::invalid_input(
                        owned("Database name must contain only normal path segments"),
                    ),
                );
            },
        }
        i = i + 1;
    }
    Ok(path)
}

} // verus!
