//! Paths of files, written with slashes, as texts.
use crate::text::{
    concat2, concat3, cut_last, has_prefix, has_suffix, ends_with, owned, rsplit_once, same, split,
    split_parts, starts_with, texts,
};
use vstd::prelude::*;

pub mod laws;

verus! {

/// A part of a path.
#[derive(Debug, PartialEq, Eq)]
pub enum PathPart {
    RootDir,
    CurDir,
    ParentDir,
    Normal(String),
}

/// The model of a part.
pub enum PartModel {
    RootDir,
    CurDir,
    ParentDir,
    Normal(Seq<char>),
}

impl View for PathPart {
    type V = PartModel;

    open spec fn view(&self) -> PartModel {
        match self {
            PathPart::RootDir => PartModel::RootDir,
            PathPart::CurDir => PartModel::CurDir,
            PathPart::ParentDir => PartModel::ParentDir,
            PathPart::Normal(name) => PartModel::Normal(name@),
        }
    }
}

pub open spec fn part_models(parts: Seq<PathPart>) -> Seq<PartModel> {
    parts.map_values(|p: PathPart| p@)
}

/// The part that a piece between slashes is. An empty piece is none, nor is a dot behind
/// another piece.
pub open spec fn piece_part(piece: Seq<char>, first: bool) -> Option<PartModel> {
    if piece.len() == 0 {
        None
    } else if piece == "."@ {
        if first {
            Some(PartModel::CurDir)
        } else {
            None
        }
    } else if piece == ".."@ {
        Some(PartModel::ParentDir)
    } else {
        Some(PartModel::Normal(piece))
    }
}

/// The parts of the first `n` pieces between slashes.
pub open spec fn piece_parts(pieces: Seq<Seq<char>>, n: int) -> Seq<PartModel>
    decreases n,
{
    if n <= 0 {
        Seq::empty()
    } else {
        let before = piece_parts(pieces, n - 1);
        match piece_part(pieces[n - 1], n == 1) {
            Some(part) => before.push(part),
            None => before,
        }
    }
}

/// Whether a path starts at the root.
pub open spec fn is_rooted(path: Seq<char>) -> bool {
    starts_with(path, "/"@)
}

/// The parts of a path.
pub open spec fn path_parts(path: Seq<char>) -> Seq<PartModel> {
    let pieces = split_parts(path, '/');
    let rest = piece_parts(pieces, pieces.len() as int);
    if is_rooted(path) {
        seq![PartModel::RootDir] + rest
    } else {
        rest
    }
}

/// A path behind another one. A path that starts at the root stands for itself.
pub open spec fn path_joined(base: Seq<char>, rest: Seq<char>) -> Seq<char> {
    if is_rooted(rest) {
        rest
    } else if base.len() == 0 || ends_with(base, "/"@) {
        base + rest
    } else {
        base + "/"@ + rest
    }
}

/// The name at the end of a path.
pub open spec fn last_name(path: Seq<char>) -> Option<Seq<char>> {
    let parts = path_parts(path);
    if parts.len() == 0 {
        None
    } else {
        match parts.last() {
            PartModel::Normal(name) => Some(name),
            _ => None,
        }
    }
}

/// A file's name, cut at its last dot. A dot at its start does not count.
pub open spec fn name_cut(name: Seq<char>) -> (Seq<char>, Option<Seq<char>>) {
    match cut_last(name, '.') {
        None => (name, None),
        Some((stem, extension)) => if stem.len() == 0 {
            (name, None)
        } else {
            (stem, Some(extension))
        },
    }
}

/// The text of a part.
pub open spec fn part_text(part: PartModel) -> Seq<char> {
    match part {
        PartModel::RootDir => "/"@,
        PartModel::CurDir => "."@,
        PartModel::ParentDir => ".."@,
        PartModel::Normal(name) => name,
    }
}

/// The path with the given parts.
pub open spec fn parts_text(parts: Seq<PartModel>) -> Seq<char>
    decreases parts.len(),
{
    if parts.len() == 0 {
        Seq::empty()
    } else {
        path_joined(parts_text(parts.drop_last()), part_text(parts.last()))
    }
}

/// Where one comes to along a part.
pub open spec fn step(at: Seq<PartModel>, part: PartModel) -> Seq<PartModel> {
    match part {
        PartModel::RootDir => seq![PartModel::RootDir],
        PartModel::CurDir => at,
        PartModel::ParentDir => if at.len() == 0 || at.last() == PartModel::RootDir {
            at
        } else {
            at.drop_last()
        },
        PartModel::Normal(_) => at.push(part),
    }
}

/// Where one comes to along the first `n` parts.
pub open spec fn walked(at: Seq<PartModel>, parts: Seq<PartModel>, n: int) -> Seq<PartModel>
    decreases n,
{
    if n <= 0 {
        at
    } else {
        step(walked(at, parts, n - 1), parts[n - 1])
    }
}

/// A path without detours, that starts at the root or where one is.
pub open spec fn lexical_parts(current: Seq<char>, path: Seq<char>) -> Seq<PartModel> {
    let start = if is_rooted(path) {
        Seq::empty()
    } else {
        path_parts(current)
    };
    walked(start, path_parts(path), path_parts(path).len() as int)
}

/// Whether the first parts of a path are those of another.
pub open spec fn parts_start_with(parts: Seq<PartModel>, base: Seq<PartModel>) -> bool {
    base.len() <= parts.len() && parts.take(base.len() as int) == base
}

pub fn is_absolute(path: &str) -> (r: bool)
    ensures
        r == is_rooted(path@),
{
    has_prefix(path, "/")
}

/// The parts of a path.
pub fn components(path: &str) -> (r: Vec<PathPart>)
    ensures
        part_models(r@) == path_parts(path@),
{
    let pieces = split(path, '/');
    let ghost names = split_parts(path@, '/');
    let mut parts: Vec<PathPart> = Vec::new();
    let ghost head: Seq<PartModel> = if is_rooted(path@) {
        seq![PartModel::RootDir]
    } else {
        Seq::empty()
    };
    if is_absolute(path) {
        parts.push(PathPart::RootDir);
    }
    assert(part_models(parts@) =~= head);
    assert(head + piece_parts(names, 0) =~= head);
    let mut i: usize = 0;
    while i < pieces.len()
        invariant
            texts(pieces@) == names,
            i <= pieces.len(),
            part_models(parts@) == head + piece_parts(names, i as int),
        decreases pieces.len() - i,
    {
        let piece = pieces[i].as_str();
        let ghost before = parts@;
        assert(piece@ == names[i as int]);
        if piece.is_empty() {
        } else if same(piece, ".") {
            if i == 0 {
                parts.push(PathPart::CurDir);
            }
        } else if same(piece, "..") {
            parts.push(PathPart::ParentDir);
        } else {
            parts.push(PathPart::Normal(owned(piece)));
        }
        proof {
            match piece_part(names[i as int], i == 0) {
                Some(part) => {
                    assert(part_models(parts@) =~= part_models(before).push(part));
                    assert(head + piece_parts(names, i as int).push(part) =~= (head + piece_parts(
                        names,
                        i as int,
                    )).push(part));
                },
                None => {},
            }
        }
        i = i + 1;
    }
    assert(Seq::<PartModel>::empty() + piece_parts(names, names.len() as int) =~= piece_parts(
        names,
        names.len() as int,
    ));
    parts
}

pub fn join_path(base: &str, rest: &str) -> (r: String)
    ensures
        r@ == path_joined(base@, rest@),
{
    if is_absolute(rest) {
        owned(rest)
    } else if base.is_empty() || has_suffix(base, "/") {
        concat2(base, rest)
    } else {
        concat3(base, "/", rest)
    }
}

/// The text of a name that there may be.
pub open spec fn opt_name(name: Option<String>) -> Option<Seq<char>> {
    match name {
        Some(s) => Some(s@),
        None => None,
    }
}

/// The name at the end of a path.
pub fn file_name(path: &str) -> (r: Option<String>)
    ensures
        opt_name(r) == last_name(path@),
{
    let parts = components(path);
    if parts.len() == 0 {
        return None;
    }
    let last = &parts[parts.len() - 1];
    assert(part_models(parts@).last() == last@);
    match last {
        PathPart::Normal(name) => Some(owned(name.as_str())),
        _ => None,
    }
}

/// A file's name, cut at its last dot.
pub fn cut_name(name: &str) -> (r: (String, Option<String>))
    ensures
        r.0@ == name_cut(name@).0,
        opt_name(r.1) == name_cut(name@).1,
{
    match rsplit_once(name, '.') {
        None => (owned(name), None),
        Some((stem, extension)) => if stem.as_str().is_empty() {
            (owned(name), None)
        } else {
            (stem, Some(extension))
        },
    }
}

/// The path with the given parts.
pub fn path_of(parts: &Vec<PathPart>) -> (r: String)
    ensures
        r@ == parts_text(part_models(parts@)),
{
    let ghost models = part_models(parts@);
    let mut text = owned("");
    proof {
        reveal_strlit("");
        assert(models.take(0) =~= Seq::empty());
    }
    let mut i: usize = 0;
    while i < parts.len()
        invariant
            i <= parts.len(),
            models == part_models(parts@),
            text@ == parts_text(models.take(i as int)),
        decreases parts.len() - i,
    {
        proof {
            assert(models.take(i + 1).drop_last() =~= models.take(i as int));
            assert(models.take(i + 1).last() == parts@[i as int]@);
        }
        text = match &parts[i] {
            PathPart::RootDir => join_path(text.as_str(), "/"),
            PathPart::CurDir => join_path(text.as_str(), "."),
            PathPart::ParentDir => join_path(text.as_str(), ".."),
            PathPart::Normal(name) => join_path(text.as_str(), name.as_str()),
        };
        i = i + 1;
    }
    proof {
        assert(models.take(models.len() as int) =~= models);
    }
    text
}

fn copy_part(part: &PathPart) -> (r: PathPart)
    ensures
        r@ == part@,
{
    match part {
        PathPart::RootDir => PathPart::RootDir,
        PathPart::CurDir => PathPart::CurDir,
        PathPart::ParentDir => PathPart::ParentDir,
        PathPart::Normal(name) => PathPart::Normal(owned(name.as_str())),
    }
}

/// A path without detours.
pub fn absolute_lexical_path(current_directory: &str, path: &str) -> (r: Vec<PathPart>)
    ensures
        part_models(r@) == lexical_parts(current_directory@, path@),
{
    let parts = components(path);
    let mut at: Vec<PathPart> = if is_absolute(path) {
        Vec::new()
    } else {
        components(current_directory)
    };
    let ghost start = part_models(at@);
    let ghost models = part_models(parts@);
    proof {
        if is_rooted(path@) {
            assert(part_models(at@) =~= Seq::empty());
        }
    }
    let mut i: usize = 0;
    while i < parts.len()
        invariant
            i <= parts.len(),
            models == part_models(parts@),
            part_models(at@) == walked(start, models, i as int),
        decreases parts.len() - i,
    {
        let part = &parts[i];
        let ghost before = at@;
        assert(part@ == models[i as int]);
        match part {
            PathPart::RootDir => {
                at = Vec::new();
                at.push(PathPart::RootDir);
                assert(part_models(at@) =~= seq![PartModel::RootDir]);
            },
            PathPart::CurDir => {},
            PathPart::ParentDir => {
                if at.len() > 0 {
                    let stays = match &at[at.len() - 1] {
                        PathPart::RootDir => true,
                        _ => false,
                    };
                    assert(part_models(before).last() == before.last()@);
                    if !stays {
                        at.pop();
                        assert(part_models(at@) =~= part_models(before).drop_last());
                    }
                }
            },
            PathPart::Normal(_) => {
                at.push(copy_part(part));
                assert(part_models(at@) =~= part_models(before).push(part@));
            },
        }
        i = i + 1;
    }
    at
}

fn same_part(a: &PathPart, b: &PathPart) -> (r: bool)
    ensures
        r == (a@ == b@),
{
    match (a, b) {
        (PathPart::RootDir, PathPart::RootDir) => true,
        (PathPart::CurDir, PathPart::CurDir) => true,
        (PathPart::ParentDir, PathPart::ParentDir) => true,
        (PathPart::Normal(x), PathPart::Normal(y)) => same(x.as_str(), y.as_str()),
        _ => false,
    }
}

/// Whether the first parts of a path are those of another.
pub fn has_base(parts: &Vec<PathPart>, base: &Vec<PathPart>) -> (r: bool)
    ensures
        r == parts_start_with(part_models(parts@), part_models(base@)),
{
    if base.len() > parts.len() {
        return false;
    }
    let ghost p = part_models(parts@);
    let ghost b = part_models(base@);
    let mut i: usize = 0;
    while i < base.len()
        invariant
            p == part_models(parts@),
            b == part_models(base@),
            base.len() <= parts.len(),
            i <= base.len(),
            forall|j: int| 0 <= j < i ==> p[j] == b[j],
        decreases base.len() - i,
    {
        if !same_part(&parts[i], &base[i]) {
            proof {
                assert(p[i as int] != b[i as int]);
                assert(p.take(b.len() as int)[i as int] == p[i as int]);
            }
            return false;
        }
        assert(p[i as int] == b[i as int]);
        i = i + 1;
    }
    proof {
        assert(p.take(b.len() as int) =~= b);
    }
    true
}

} // verus!
