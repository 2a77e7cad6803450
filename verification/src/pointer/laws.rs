//! Which drawer and which record a pointer names.
use crate::pointer::{clean_token, pointer_parts};
use crate::text::laws::{law_cut_at_the_first, law_prefix_stands_before};
use crate::text::{
    after_prefix, cut_once, first_other, lemma_first_other, starts_with, without_leading,
};
use vstd::prelude::*;

verus! {

/// A text points at a record just where it is a mark, the drawer, a colon and the key; a key may
/// have the mark of a link before it, which does not belong to it. Neither the drawer nor what
/// stands behind the colon is empty, and there is no other colon.
pub proof fn law_pointer_names_drawer_and_key(s: Seq<char>, drawer: Seq<char>, token: Seq<char>)
    ensures
        drawer.len() > 0 && !drawer.contains(':') && token.len() > 0 && !token.contains(':')
            ==> pointer_parts("@"@ + drawer + ":"@ + token) == Some(
            (
                drawer,
                if starts_with(token, "lnk_"@) {
                    token.subrange(4, token.len() as int)
                } else {
                    token
                },
            ),
        ),
        pointer_parts(s) matches Some((d, k)) ==> d.len() > 0 && !d.contains(':') && !k.contains(
            ':',
        ) && (s == "@"@ + d + ":"@ + k || s == "@"@ + d + ":"@ + ("lnk_"@ + k)),
        !starts_with(s, "@"@) ==> pointer_parts(s) is None,
{
    reveal_strlit("@");
    reveal_strlit(":");
    reveal_strlit("lnk_");
    let whole = "@"@ + drawer + ":"@ + token;
    let rest = drawer + seq![':'] + token;
    assert(whole =~= "@"@ + rest);
    law_prefix_stands_before(whole, "@"@, rest);
    law_cut_at_the_first(rest, ':', drawer, token);
    law_prefix_stands_before(s, "@"@, s);
    match pointer_parts(s) {
        Some((d, k)) => {
            let behind = after_prefix(s, "@"@)->0;
            law_prefix_stands_before(s, "@"@, behind);
            let (d2, t) = cut_once(behind, ':')->0;
            law_cut_at_the_first(behind, ':', d2, t);
            if starts_with(t, "lnk_"@) {
                law_prefix_stands_before(t, "lnk_"@, k);
                assert(s =~= "@"@ + d + ":"@ + ("lnk_"@ + k));
                if k.contains(':') {
                    let i = choose|i: int| 0 <= i < k.len() && k[i] == ':';
                    assert(t[i + 4] == ':');
                }
            } else {
                assert(s =~= "@"@ + d + ":"@ + k);
            }
        },
        None => {},
    }
}

/// A key stands for itself, with or without the mark of a link before it; a pointer stands for
/// the key that it names.
pub proof fn law_token_stands_for_its_key(key: Seq<char>, s: Seq<char>)
    ensures
        !starts_with(key, "@"@) && !starts_with(key, "lnk_"@) ==> clean_token(key) == key,
        !starts_with(key, "@"@) ==> clean_token("lnk_"@ + key) == key,
        pointer_parts(s) matches Some((_, k)) ==> clean_token(s) == k,
{
    reveal_strlit("@");
    reveal_strlit("lnk_");
    lemma_first_other(key, '@', 0);
    if !starts_with(key, "@"@) {
        if key.len() > 0 && key[0] == '@' {
            assert(key.subrange(0, 1) =~= "@"@);
        }
        assert(without_leading(key, '@') =~= key);
        law_prefix_stands_before(key, "@"@, key);
        let linked = "lnk_"@ + key;
        assert(linked[0] == 'l');
        lemma_first_other(linked, '@', 0);
        assert(first_other(linked, '@', 0) == 0);
        assert(without_leading(linked, '@') =~= linked);
        if starts_with(linked, "@"@) {
            assert(linked.subrange(0, 1)[0] == linked[0]);
        }
        law_prefix_stands_before(linked, "lnk_"@, key);
    }
}

} // verus!
