//! Paths that name a wardrobe, a bay or a drawer, and the files behind them.
use crate::catalog::validation::{is_reserved_or_empty_segment, reserved_segment};
use crate::error::{bad_input, Error, Failure};
use crate::paths::{cut_name, file_name, last_name, name_cut};
use crate::text::{concat4, ends_with, has_char, has_suffix, same, split, split_parts, texts, trim, trimmed};
use vstd::prelude::*;

verus! {

/// Whether a part of a structural path is no name.
pub open spec fn bad_segment(segment: Seq<char>) -> bool {
    reserved_segment(trimmed(segment)) || segment.contains('\\')
}

/// Whether every part of a structural path is a name.
pub open spec fn all_named(parts: Seq<Seq<char>>) -> bool {
    forall|i: int| 0 <= i < parts.len() ==> !bad_segment(#[trigger] parts[i])
}

/// The parts of a structural path, or why it is refused.
pub open spec fn structural_parts(raw: Seq<char>, label: Seq<char>) -> Result<
    Seq<Seq<char>>,
    Failure,
> {
    let parts = split_parts(trimmed(raw), '/');
    if all_named(parts) {
        Ok(parts)
    } else {
        Err(bad_input("Invalid "@ + label + ": "@ + raw))
    }
}

/// The parts of a path that names a wardrobe, a bay or a drawer.
pub fn split_structural_path(raw: &str, label: &str) -> (r: Result<Vec<String>, Error>)
    ensures
        match (structural_parts(raw@, label@), r) {
            (Ok(parts), Ok(segments)) => texts(segments@) == parts,
            (Err(f), Err(e)) => e@ == f,
            _ => false,
        },
{
    let bare = trim(raw);
    let parts = split(bare.as_str(), '/');
    let ghost names = texts(parts@);
    let mut i: usize = 0;
    while i < parts.len()
        invariant
            i <= parts.len(),
            names == texts(parts@),
            names == split_parts(trimmed(raw@), '/'),
            forall|j: int| 0 <= j < i ==> !bad_segment(#[trigger] names[j]),
        decreases parts.len() - i,
    {
        assert(names[i as int] == parts@[i as int]@);
        let segment = parts[i].as_str();
        let name = trim(segment);
        if is_reserved_or_empty_segment(name.as_str()) || has_char(segment, '\\') {
            assert(bad_segment(names[i as int]));
            return Err(Error::invalid_input(concat4("Invalid ", label, ": ", raw)));
        }
        i = i + 1;
    }
    Ok(parts)
}

/// The drawer whose records a file of this name holds.
pub open spec fn drawer_of_file(path: Seq<char>) -> Option<Seq<char>> {
    match last_name(path) {
        None => None,
        Some(name) => {
            let (stem, extension) = name_cut(name);
            if extension != Some("drw"@) || stem == ".catalog"@ || ends_with(stem, "_index"@)
                || ends_with(stem, "_meta"@) {
                None
            } else {
                Some(stem)
            }
        },
    }
}

/// The drawer whose records a file holds, if it holds a drawer's records.
pub fn drawer_name_from_file_path(path: &str) -> (r: Option<String>)
    ensures
        crate::paths::opt_name(r) == drawer_of_file(path@),
{
    let name = match file_name(path) {
        Some(name) => name,
        None => {
            return None;
        },
    };
    let (stem, extension) = cut_name(name.as_str());
    let is_drawer = match &extension {
        Some(e) => same(e.as_str(), "drw"),
        None => false,
    };
    if !is_drawer || same(stem.as_str(), ".catalog") || has_suffix(stem.as_str(), "_index")
        || has_suffix(stem.as_str(), "_meta") {
        return None;
    }
    Some(stem)
}

/// Whether a file of this name holds what is known of a drawer.
pub open spec fn is_meta_name(path: Seq<char>) -> bool {
    match last_name(path) {
        None => false,
        Some(name) => name_cut(name).1 == Some("drw"@) && ends_with(name_cut(name).0, "_meta"@),
    }
}

/// Whether a file holds what is known of a drawer.
pub fn is_metadata_file(path: &str) -> (r: bool)
    ensures
        r == is_meta_name(path@),
{
    let name = match file_name(path) {
        Some(name) => name,
        None => {
            return false;
        },
    };
    let (stem, extension) = cut_name(name.as_str());
    match &extension {
        Some(e) => same(e.as_str(), "drw") && has_suffix(stem.as_str(), "_meta"),
        None => false,
    }
}

} // verus!
