//! Where paths lead.
use crate::paths::{
    is_rooted, last_name, lexical_parts, name_cut, path_joined, path_parts, piece_part, piece_parts,
    step, walked, PartModel,
};
use crate::text::laws::lemma_split_append;
use crate::text::{ends_with, lemma_last_index, split_parts};
use vstd::prelude::*;

verus! {

/// Whether a text can be the name of a file.
pub open spec fn is_name(name: Seq<char>) -> bool {
    name.len() > 0 && !name.contains('/') && name != "."@ && name != ".."@
}

proof fn lemma_pieces_same(a: Seq<Seq<char>>, b: Seq<Seq<char>>, n: int)
    requires
        0 <= n <= a.len(),
        n <= b.len(),
        forall|i: int| 0 <= i < n ==> #[trigger] a[i] == b[i],
    ensures
        piece_parts(a, n) == piece_parts(b, n),
    decreases n,
{
    if n > 0 {
        lemma_pieces_same(a, b, n - 1);
        assert(a[n - 1] == b[n - 1]);
    }
}

/// A name behind a path leads one step further: to the file of that name in the directory.
pub proof fn law_joined_name_is_one_step_further(base: Seq<char>, name: Seq<char>)
    requires
        is_name(name),
        base.len() > 0,
        !ends_with(base, "/"@),
    ensures
        path_parts(path_joined(base, name)) == path_parts(base).push(PartModel::Normal(name)),
        last_name(path_joined(base, name)) == Some(name),
{
    reveal_strlit("/");
    let all = base + "/"@ + name;
    assert(all =~= base + seq!['/'] + name);
    if is_rooted(name) {
        assert(name.subrange(0, 1)[0] == name[0]);
        assert(name.contains(name[0]));
    }
    assert(path_joined(base, name) == all);
    lemma_split_append(base, '/', name);
    let before = split_parts(base, '/');
    let pieces = split_parts(all, '/');
    crate::text::laws::lemma_split_pieces(base, '/', 0);
    assert(pieces == before.push(name));
    lemma_pieces_same(pieces, before, before.len() as int);
    assert(piece_part(name, false) == Some(PartModel::Normal(name)));
    assert(piece_parts(pieces, pieces.len() as int) == piece_parts(
        before,
        before.len() as int,
    ).push(PartModel::Normal(name)));
    assert(all.subrange(0, 1) =~= base.subrange(0, 1));
    assert(is_rooted(all) == is_rooted(base));
    assert(path_parts(all) =~= path_parts(base).push(PartModel::Normal(name)));
}

/// A path that starts at the root stands for itself, wherever it is joined to.
pub proof fn law_rooted_path_stands_for_itself(base: Seq<char>, path: Seq<char>)
    requires
        is_rooted(path),
    ensures
        path_joined(base, path) == path,
{
}

/// Whether parts lead from the root down, without detours.
pub open spec fn is_straight(parts: Seq<PartModel>) -> bool {
    parts.len() > 0 && parts[0] == PartModel::RootDir && forall|i: int|
        0 < i < parts.len() ==> (#[trigger] parts[i]) is Normal
}

proof fn lemma_walk_is_straight(at: Seq<PartModel>, parts: Seq<PartModel>, n: int)
    requires
        0 <= n <= parts.len(),
        is_straight(at) || n > 0 && parts[0] == PartModel::RootDir,
    ensures
        is_straight(walked(at, parts, n)),
    decreases n,
{
    if n == 1 && parts[0] == PartModel::RootDir {
        assert(walked(at, parts, 0) == at);
        assert(walked(at, parts, 1) == seq![PartModel::RootDir]);
    } else if n > 0 {
        lemma_walk_is_straight(at, parts, n - 1);
        let before = walked(at, parts, n - 1);
        match parts[n - 1] {
            PartModel::ParentDir => {
                if before.last() != PartModel::RootDir {
                    assert(before.len() > 1);
                }
            },
            _ => {},
        }
    }
}

/// A path without detours leads from the root straight down, wherever one is.
pub proof fn law_lexical_path_is_straight(current: Seq<char>, path: Seq<char>)
    requires
        is_straight(path_parts(current)),
    ensures
        is_straight(lexical_parts(current, path)),
{
    let parts = path_parts(path);
    if is_rooted(path) {
        assert(parts[0] == PartModel::RootDir);
        lemma_walk_is_straight(Seq::empty(), parts, parts.len() as int);
    } else {
        lemma_walk_is_straight(path_parts(current), parts, parts.len() as int);
    }
}

/// A step down and a step up lead back, and to stay where one is leads nowhere.
pub proof fn law_up_undoes_down(at: Seq<PartModel>, name: Seq<char>)
    ensures
        step(step(at, PartModel::Normal(name)), PartModel::ParentDir) == at,
        step(at, PartModel::CurDir) == at,
        step(at, PartModel::RootDir) == seq![PartModel::RootDir],
        step(at, PartModel::Normal(name)) == at.push(PartModel::Normal(name)),
{
    assert(at.push(PartModel::Normal(name)).drop_last() =~= at);
}

/// The stem and the extension of a file's name make up the name, with a dot between them; the
/// extension holds no dot, and the stem is not empty.
pub proof fn law_stem_and_extension_make_the_name(name: Seq<char>)
    ensures
        match name_cut(name) {
            (stem, Some(extension)) => stem + "."@ + extension == name && stem.len() > 0
                && !extension.contains('.'),
            (stem, None) => stem == name && forall|i: int|
                0 < i < name.len() ==> #[trigger] name[i] != '.',
        },
{
    reveal_strlit(".");
    lemma_last_index(name, '.', name.len() as int);
    match name_cut(name) {
        (stem, Some(extension)) => {
            assert(stem + "."@ + extension =~= name);
            if extension.contains('.') {
                let i = choose|i: int| 0 <= i < extension.len() && extension[i] == '.';
                assert(name[stem.len() + 1 + i] == '.');
            }
        },
        _ => {},
    }
}

} // verus!
