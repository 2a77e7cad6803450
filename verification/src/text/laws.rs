//! What cutting texts and putting them together again gives.
use crate::text::{
    after_prefix, ascii_lower, before_from, cut_last, cut_once, first_index, first_solid, is_space,
    joined, last_index, lemma_first_index, lemma_last_index, less_prefix, solid_end, split_from,
    split_parts, starts_with, text_before, trimmed,
};
use vstd::prelude::*;

verus! {

pub proof fn lemma_first_solid(s: Seq<char>, i: int)
    requires
        0 <= i <= s.len(),
    ensures
        i <= first_solid(s, i) <= s.len(),
        first_solid(s, i) < s.len() ==> !is_space(s[first_solid(s, i)]),
    decreases s.len() - i,
{
    if i < s.len() && is_space(s[i]) {
        lemma_first_solid(s, i + 1);
    }
}

pub proof fn lemma_solid_end(s: Seq<char>, start: int, end: int)
    requires
        0 <= start <= end <= s.len(),
    ensures
        start <= solid_end(s, start, end) <= end,
        solid_end(s, start, end) > start ==> !is_space(s[solid_end(s, start, end) - 1]),
        start < end && !is_space(s[start]) ==> solid_end(s, start, end) > start,
    decreases end - start,
{
    if end > start && is_space(s[end - 1]) {
        lemma_solid_end(s, start, end - 1);
    }
}

/// What is left when white space is dropped has none at its ends.
pub proof fn lemma_trimmed_ends(s: Seq<char>)
    ensures
        trimmed(s).len() > 0 ==> !is_space(trimmed(s)[0]) && !is_space(trimmed(s).last()),
{
    lemma_first_solid(s, 0);
    lemma_solid_end(s, first_solid(s, 0), s.len() as int);
}

/// A text without white space at its ends stays as it is.
pub proof fn lemma_solid_stays(s: Seq<char>)
    requires
        s.len() > 0 ==> !is_space(s[0]) && !is_space(s.last()),
    ensures
        trimmed(s) == s,
{
    if s.len() > 0 {
        assert(first_solid(s, 0) == 0);
        assert(solid_end(s, 0, s.len() as int) == s.len());
    }
    assert(trimmed(s) =~= s);
}

/// To drop white space at the ends twice is to drop it once.
pub proof fn law_trim_twice(s: Seq<char>)
    ensures
        trimmed(trimmed(s)) == trimmed(s),
{
    lemma_trimmed_ends(s);
    lemma_solid_stays(trimmed(s));
}

/// A position that holds `c`, or the end, with no `c` from `i` up to it, is the first.
pub proof fn lemma_first_index_is(s: Seq<char>, c: char, i: int, at: int)
    requires
        0 <= i <= at <= s.len(),
        at < s.len() ==> s[at] == c,
        forall|k: int| i <= k < at ==> s[k] != c,
    ensures
        first_index(s, c, i) == at,
    decreases at - i,
{
    if i < at {
        lemma_first_index_is(s, c, i + 1, at);
    }
}

/// The parts between separators hold no separator, and there is at least one.
pub proof fn lemma_split_pieces(s: Seq<char>, sep: char, start: int)
    requires
        0 <= start <= s.len(),
    ensures
        split_from(s, sep, start).len() >= 1,
        forall|i: int|
            0 <= i < split_from(s, sep, start).len() ==> !(#[trigger] split_from(
                s,
                sep,
                start,
            )[i]).contains(sep),
    decreases s.len() - start,
{
    lemma_first_index(s, sep, start);
    let j = first_index(s, sep, start);
    let parts = split_from(s, sep, start);
    if j < s.len() {
        lemma_split_pieces(s, sep, j + 1);
        let rest = split_from(s, sep, j + 1);
        assert forall|i: int| 0 <= i < parts.len() implies !(#[trigger] parts[i]).contains(sep) by {
            if i > 0 {
                assert(parts[i] == rest[i - 1]);
            } else {
                assert(parts[0] == s.subrange(start, j));
                assert forall|k: int| 0 <= k < parts[0].len() implies parts[0][k] != sep by {
                    assert(s[start + k] != sep);
                }
            }
        }
    } else {
        assert forall|i: int| 0 <= i < parts.len() implies !(#[trigger] parts[i]).contains(sep) by {
            assert forall|k: int| 0 <= k < parts[0].len() implies parts[0][k] != sep by {
                assert(s[start + k] != sep);
            }
        }
    }
}

/// A text without a separator is one part.
pub proof fn lemma_split_plain(s: Seq<char>, sep: char)
    requires
        !s.contains(sep),
    ensures
        split_parts(s, sep) == seq![s],
{
    assert forall|k: int| 0 <= k < s.len() implies s[k] != sep by {
        assert(s.contains(s[k]));
    }
    lemma_first_index_is(s, sep, 0, s.len() as int);
    assert(s.subrange(0, s.len() as int) =~= s);
}

proof fn lemma_joined_first(first: Seq<char>, rest: Seq<Seq<char>>, sep: Seq<char>)
    requires
        rest.len() >= 1,
    ensures
        joined(seq![first] + rest, sep) == first + sep + joined(rest, sep),
    decreases rest.len(),
{
    let all = seq![first] + rest;
    assert(all.drop_last() =~= seq![first] + rest.drop_last());
    assert(all.last() == rest.last());
    if rest.len() == 1 {
        assert(rest.drop_last() =~= Seq::empty());
        assert(all.drop_last() =~= seq![first]);
        reveal_with_fuel(joined, 2);
        assert(joined(all, sep) =~= first + sep + rest[0]);
    } else {
        lemma_joined_first(first, rest.drop_last(), sep);
        assert(joined(all, sep) =~= first + sep + joined(rest, sep));
    }
}

proof fn lemma_join_split(s: Seq<char>, sep: char, start: int)
    requires
        0 <= start <= s.len(),
    ensures
        joined(split_from(s, sep, start), seq![sep]) == s.subrange(start, s.len() as int),
    decreases s.len() - start,
{
    lemma_first_index(s, sep, start);
    let j = first_index(s, sep, start);
    if j < s.len() {
        let rest = split_from(s, sep, j + 1);
        lemma_split_pieces(s, sep, j + 1);
        lemma_join_split(s, sep, j + 1);
        lemma_joined_first(s.subrange(start, j), rest, seq![sep]);
        assert(s.subrange(start, j) + seq![sep] + s.subrange(j + 1, s.len() as int)
            =~= s.subrange(start, s.len() as int));
    }
}

/// The parts of a text, joined by what parted them, are the text.
pub proof fn law_split_then_join(s: Seq<char>, sep: char)
    ensures
        joined(split_parts(s, sep), seq![sep]) == s,
{
    lemma_join_split(s, sep, 0);
    assert(s.subrange(0, s.len() as int) =~= s);
}

proof fn lemma_split_append_from(base: Seq<char>, sep: char, name: Seq<char>, start: int)
    requires
        !name.contains(sep),
        0 <= start <= base.len(),
    ensures
        split_from(base + seq![sep] + name, sep, start) == split_from(base, sep, start).push(name),
    decreases base.len() - start,
{
    let all = base + seq![sep] + name;
    lemma_first_index(base, sep, start);
    let j = first_index(base, sep, start);
    assert forall|k: int| start <= k < j implies all[k] != sep by {
        assert(all[k] == base[k]);
    }
    assert(all[j] == sep);
    lemma_first_index_is(all, sep, start, j);
    assert(all.subrange(start, j) =~= base.subrange(start, j));
    if j < base.len() {
        lemma_split_append_from(base, sep, name, j + 1);
        assert(split_from(all, sep, start) =~= split_from(base, sep, start).push(name));
    } else {
        assert forall|k: int| j + 1 <= k < all.len() implies all[k] != sep by {
            assert(all[k] == name[k - j - 1]);
            assert(name.contains(name[k - j - 1]));
        }
        lemma_first_index_is(all, sep, j + 1, all.len() as int);
        assert(all.subrange(j + 1, all.len() as int) =~= name);
        assert(split_from(all, sep, j + 1) == seq![name]);
        assert(split_from(base, sep, start) == seq![base.subrange(start, j)]);
        assert(split_from(all, sep, start) =~= split_from(base, sep, start).push(name));
    }
}

/// A name behind a separator is one part more.
pub proof fn lemma_split_append(base: Seq<char>, sep: char, name: Seq<char>)
    requires
        !name.contains(sep),
    ensures
        split_parts(base + seq![sep] + name, sep) == split_parts(base, sep).push(name),
{
    lemma_split_append_from(base, sep, name, 0);
}

/// A text is what stands before it, the text without white space at its ends, and what stands
/// behind it; only white space stands before and behind.
pub proof fn law_trim_drops_white_space_alone(s: Seq<char>)
    ensures
        exists|a: Seq<char>, b: Seq<char>|
            s == #[trigger] (a + trimmed(s) + b) && all_space(a) && all_space(b),
        trimmed(s).len() > 0 ==> !is_space(trimmed(s)[0]) && !is_space(trimmed(s).last()),
{
    let start = first_solid(s, 0);
    let end = solid_end(s, start, s.len() as int);
    lemma_first_solid(s, 0);
    lemma_solid_end(s, start, s.len() as int);
    lemma_trimmed_ends(s);
    lemma_before_solid(s, 0);
    lemma_behind_solid(s, start, s.len() as int);
    let a = s.subrange(0, start);
    let b = s.subrange(end, s.len() as int);
    assert(s =~= a + trimmed(s) + b);
    assert(all_space(a)) by {
        assert forall|i: int| 0 <= i < a.len() implies is_space(#[trigger] a[i]) by {
            assert(a[i] == s[i]);
        }
    }
    assert(all_space(b)) by {
        assert forall|i: int| 0 <= i < b.len() implies is_space(#[trigger] b[i]) by {
            assert(b[i] == s[end + i]);
        }
    }
}

/// Whether a text is white space alone.
pub open spec fn all_space(s: Seq<char>) -> bool {
    forall|i: int| 0 <= i < s.len() ==> is_space(#[trigger] s[i])
}

proof fn lemma_before_solid(s: Seq<char>, i: int)
    requires
        0 <= i <= s.len(),
    ensures
        forall|k: int| i <= k < first_solid(s, i) ==> is_space(#[trigger] s[k]),
    decreases s.len() - i,
{
    if i < s.len() && is_space(s[i]) {
        lemma_before_solid(s, i + 1);
    }
}

proof fn lemma_behind_solid(s: Seq<char>, start: int, end: int)
    requires
        0 <= start <= end <= s.len(),
    ensures
        forall|k: int| solid_end(s, start, end) <= k < end ==> is_space(#[trigger] s[k]),
    decreases end - start,
{
    if start < end && is_space(s[end - 1]) {
        lemma_behind_solid(s, start, end - 1);
    }
}

/// No printable character of a basic text is white space but the blank, and blanks, tabs and ends
/// of lines are.
pub proof fn law_printable_characters_are_no_white_space(c: char)
    ensures
        '!' <= c <= '~' ==> !is_space(c),
        c == ' ' || c == '\t' || c == '\n' || c == '\r' ==> is_space(c),
{
}

/// Texts are ordered by the first character in which they differ; a text comes before every
/// longer one that starts with it.
pub proof fn law_first_difference_orders_texts(a: Seq<char>, b: Seq<char>, i: int)
    requires
        0 <= i <= a.len(),
        i <= b.len(),
        forall|k: int| 0 <= k < i ==> a[k] == b[k],
        i < a.len() && i < b.len() ==> a[i] != b[i],
    ensures
        text_before(a, b) <==> i < b.len() && (i == a.len() || a[i] < b[i]),
{
    lemma_before_from(a, b, 0, i);
}

proof fn lemma_before_from(a: Seq<char>, b: Seq<char>, from: int, i: int)
    requires
        0 <= from <= i <= a.len(),
        i <= b.len(),
        forall|k: int| 0 <= k < i ==> a[k] == b[k],
    ensures
        before_from(a, b, from) == before_from(a, b, i),
    decreases i - from,
{
    if from < i {
        lemma_before_from(a, b, from + 1, i);
    }
}

/// A text in small letters differs only in its capital letters, each of which becomes the small
/// one; to make it small twice is to make it small once.
pub proof fn law_small_letters_stay(s: Seq<char>, i: int)
    requires
        0 <= i < s.len(),
    ensures
        ascii_lower(s).len() == s.len(),
        !('A' <= s[i] <= 'Z') ==> ascii_lower(s)[i] == s[i],
        'A' <= s[i] <= 'Z' ==> ascii_lower(s)[i] as u32 == s[i] as u32 + 32,
        ascii_lower(ascii_lower(s)) == ascii_lower(s),
{
    assert(ascii_lower(ascii_lower(s)) =~= ascii_lower(s));
}

/// What is left behind a prefix is what makes up the text together with it.
pub proof fn law_prefix_stands_before(s: Seq<char>, prefix: Seq<char>, rest: Seq<char>)
    ensures
        after_prefix(s, prefix) == Some(rest) <==> s == prefix + rest,
        after_prefix(s, prefix) is None <==> !starts_with(s, prefix),
        s == prefix + rest ==> starts_with(s, prefix) && less_prefix(s, prefix) == rest,
        !starts_with(s, prefix) ==> less_prefix(s, prefix) == s,
{
    let n = prefix.len() as int;
    let whole = prefix + rest;
    assert(whole.subrange(0, n) =~= prefix);
    assert(whole.subrange(n, whole.len() as int) =~= rest);
    match after_prefix(s, prefix) {
        Some(left) => {
            assert(s =~= prefix + left);
        },
        None => {},
    }
}

/// A text is cut at the first place of a character: before it the character does not stand, and
/// the parts and the character make up the text.
pub proof fn law_cut_at_the_first(s: Seq<char>, c: char, a: Seq<char>, b: Seq<char>)
    ensures
        cut_once(s, c) == Some((a, b)) <==> s == a + seq![c] + b && !a.contains(c),
        cut_once(s, c) is None <==> !s.contains(c),
{
    lemma_first_index(s, c, 0);
    let j = first_index(s, c, 0);
    if s == a + seq![c] + b && !a.contains(c) {
        assert(s[a.len() as int] == c);
        if j < a.len() {
            assert(a[j] == s[j]);
            assert(a.contains(a[j]));
        }
        assert(j == a.len());
        assert(s.subrange(0, j) =~= a);
        assert(s.subrange(j + 1, s.len() as int) =~= b);
    }
    if j < s.len() {
        assert(s.contains(s[j]));
        let before = s.subrange(0, j);
        assert(s =~= before + seq![c] + s.subrange(j + 1, s.len() as int));
        if before.contains(c) {
            let i = choose|i: int| 0 <= i < before.len() && before[i] == c;
            assert(s[i] == c);
        }
    }
}

/// A text is cut at the last place of a character: behind it the character does not stand, and
/// the parts and the character make up the text.
pub proof fn law_cut_at_the_last(s: Seq<char>, c: char, a: Seq<char>, b: Seq<char>)
    ensures
        cut_last(s, c) == Some((a, b)) <==> s == a + seq![c] + b && !b.contains(c),
        cut_last(s, c) is None <==> !s.contains(c),
{
    lemma_last_index(s, c, s.len() as int);
    let j = last_index(s, c, s.len() as int);
    if s == a + seq![c] + b && !b.contains(c) {
        assert(s[a.len() as int] == c);
        if j > a.len() {
            assert(b[j - a.len() - 1] == s[j]);
            assert(b.contains(b[j - a.len() - 1]));
        }
        assert(j == a.len());
        assert(s.subrange(0, j) =~= a);
        assert(s.subrange(j + 1, s.len() as int) =~= b);
    }
    if j >= 0 {
        assert(s.contains(s[j]));
        let behind = s.subrange(j + 1, s.len() as int);
        assert(s =~= s.subrange(0, j) + seq![c] + behind);
        if behind.contains(c) {
            let i = choose|i: int| 0 <= i < behind.len() && behind[i] == c;
            assert(s[j + 1 + i] == c);
        }
    }
}

} // verus!
