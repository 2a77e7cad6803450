//! Record pointers: texts of the form `@drawer:key`.
use crate::error::{bad_input, Error, Failure};
use crate::text::{
    after_prefix, concat2, concat4, cut_once, drop_prefix, first_index, first_other, has_char,
    has_prefix, lemma_first_index, lemma_first_other, less_prefix, opt_pair, split_once,
    starts_with, strip_prefix, trim_start_char, without_leading,
};
use vstd::prelude::*;

pub mod laws;

verus! {

/// The drawer and the record key that a pointer names. A pointer starts with `@`; what follows
/// up to the first colon is the drawer, and what follows the colon, less a leading `lnk_`, is
/// the key. Neither part is empty, and the key holds no further colon.
pub open spec fn pointer_parts(s: Seq<char>) -> Option<(Seq<char>, Seq<char>)> {
    match after_prefix(s, "@"@) {
        Some(rest) => match cut_once(rest, ':') {
            Some((drawer, key)) => if drawer.len() == 0 || key.len() == 0 || key.contains(':') {
                None
            } else {
                Some((drawer, less_prefix(key, "lnk_"@)))
            },
            None => None,
        },
        None => None,
    }
}

/// The record key that a token stands for: the key of a pointer, or the token without leading
/// `@` and then without a leading `lnk_`.
pub open spec fn clean_token(s: Seq<char>) -> Seq<char> {
    match pointer_parts(s) {
        Some((_, key)) => key,
        None => less_prefix(without_leading(s, '@'), "lnk_"@),
    }
}

/// The pointer to a record of a drawer.
pub open spec fn pointer_text(drawer: Seq<char>, key: Seq<char>) -> Seq<char> {
    "@"@ + without_leading(drawer, '@') + ":"@ + clean_token(key)
}

/// Whether a text names a drawer and no record: it starts with `@` and holds no colon.
pub open spec fn names_drawer_only(s: Seq<char>) -> bool {
    starts_with(s, "@"@) && !s.contains(':')
}

pub fn try_parse_pointer(pointer: &str) -> (r: Option<(String, String)>)
    ensures
        opt_pair(r) == pointer_parts(pointer@),
{
    match strip_prefix(pointer, "@") {
        Some(rest) => match split_once(rest.as_str(), ':') {
            Some((drawer, key)) => {
                if drawer.as_str().is_empty() || key.as_str().is_empty() || has_char(key.as_str(), ':') {
                    None
                } else {
                    Some((drawer, drop_prefix(key.as_str(), "lnk_")))
                }
            },
            None => None,
        },
        None => None,
    }
}

/// The failure of a text that is no pointer.
pub open spec fn no_pointer(pointer: Seq<char>) -> Failure {
    bad_input("Invalid record pointer: "@ + pointer)
}

pub fn parse_pointer(pointer: &str) -> (r: Result<(String, String), Error>)
    ensures
        match r {
            Ok((drawer, key)) => pointer_parts(pointer@) == Some((drawer@, key@)),
            Err(e) => pointer_parts(pointer@) is None && e@ == no_pointer(pointer@),
        },
{
    match try_parse_pointer(pointer) {
        Some(parts) => Ok(parts),
        None => Err(Error::invalid_input(concat2("Invalid record pointer: ", pointer))),
    }
}

pub fn clean_primary_key_token(token: &str) -> (r: String)
    ensures
        r@ == clean_token(token@),
{
    match try_parse_pointer(token) {
        Some((_, key)) => key,
        None => {
            let bare = trim_start_char(token, '@');
            drop_prefix(bare.as_str(), "lnk_")
        },
    }
}

pub fn format_pointer(drawer_name: &str, record_key: &str) -> (r: String)
    ensures
        r@ == pointer_text(drawer_name@, record_key@),
{
    let drawer = trim_start_char(drawer_name, '@');
    let key = clean_primary_key_token(record_key);
    concat4("@", drawer.as_str(), ":", key.as_str())
}

/// Whether a text names a drawer and no record.
pub fn is_drawer_only(s: &str) -> (r: bool)
    ensures
        r == names_drawer_only(s@),
{
    has_prefix(s, "@") && !has_char(s, ':')
}

/// A pointer that was formatted parses back to the drawer and the key it was made of, where the
/// drawer has a name without colons and the key is one that cleaning leaves alone.
pub proof fn law_pointer_round_trip(drawer: Seq<char>, key: Seq<char>)
    requires
        without_leading(drawer, '@').len() > 0,
        !without_leading(drawer, '@').contains(':'),
        clean_token(key).len() > 0,
        !clean_token(key).contains(':'),
        !starts_with(clean_token(key), "lnk_"@),
    ensures
        pointer_parts(pointer_text(drawer, key)) == Some(
            (without_leading(drawer, '@'), clean_token(key)),
        ),
{
    reveal_strlit("@");
    reveal_strlit(":");
    let d = without_leading(drawer, '@');
    let k = clean_token(key);
    let s = pointer_text(drawer, key);
    assert(s.subrange(0, 1) =~= "@"@);
    let rest = s.subrange(1, s.len() as int);
    assert(rest =~= d + seq![':'] + k);
    lemma_first_index(rest, ':', 0);
    let j = first_index(rest, ':', 0);
    assert(rest[d.len() as int] == ':');
    if j < d.len() {
        assert(d[j] == ':');
    }
    assert(j == d.len());
    assert(rest.subrange(0, j) =~= d);
    assert(rest.subrange(j + 1, rest.len() as int) =~= k);
}

/// A formatted pointer names one drawer however many `@` stood before the name.
pub proof fn law_pointer_ignores_marks(drawer: Seq<char>, key: Seq<char>)
    ensures
        pointer_text("@"@ + drawer, key) == pointer_text(drawer, key),
{
    reveal_strlit("@");
    let marked = "@"@ + drawer;
    assert(marked =~= seq!['@'] + drawer);
    lemma_other_shift(drawer, marked, 0);
    lemma_first_other(drawer, '@', 0);
    assert(without_leading(marked, '@') =~= without_leading(drawer, '@'));
}

proof fn lemma_other_shift(s: Seq<char>, t: Seq<char>, i: int)
    requires
        t == seq!['@'] + s,
        0 <= i <= s.len(),
    ensures
        first_other(t, '@', i + 1) == first_other(s, '@', i) + 1,
    decreases s.len() - i,
{
    if i < s.len() {
        assert(t[i + 1] == s[i]);
        if s[i] == '@' {
            lemma_other_shift(s, t, i + 1);
        }
    }
}

} // verus!
