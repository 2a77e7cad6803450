//! When two values are the same.
use crate::value::{json_same, number_same, without_text, Json, Number};
use vstd::prelude::*;

verus! {

/// Two values are the same only where they are of one kind. Truth values, texts and whole numbers
/// are the same where they are equal, lists where their items are, one by one, and objects where
/// they have the same fields with the same values.
pub proof fn law_same_values_agree_in_every_part(a: Json, b: Json)
    ensures
        match (a, b) {
            (Json::Null, Json::Null) => json_same(a, b),
            (Json::Bool(x), Json::Bool(y)) => json_same(a, b) <==> x == y,
            (Json::Text(x), Json::Text(y)) => json_same(a, b) <==> x == y,
            (Json::Number(Number::PosInt(x)), Json::Number(Number::PosInt(y))) => json_same(a, b)
                <==> x == y,
            (Json::Number(Number::NegInt(x)), Json::Number(Number::NegInt(y))) => json_same(a, b)
                <==> x == y,
            (Json::Number(Number::Float(_)), Json::Number(Number::Float(_))) => true,
            (Json::Array(x), Json::Array(y)) => json_same(a, b) <==> x.len() == y.len() && forall|
                i: int,
            |
                0 <= i < x.len() ==> json_same(#[trigger] x[i], y[i]),
            (Json::Object(x), Json::Object(y)) => x.dom().finite() ==> (json_same(a, b) <==> (forall|
                k: Seq<char>,
            |
                x.dom().contains(k) <==> y.dom().contains(k)) && forall|k: Seq<char>| #[trigger]
                x.dom().contains(k) ==> json_same(x[k], y[k])),
            _ => !json_same(a, b),
        },
{
    match (a, b) {
        (Json::Object(x), Json::Object(y)) => {
            if forall|k: Seq<char>| x.dom().contains(k) <==> y.dom().contains(k) {
                assert(x.dom() =~= y.dom());
            }
        },
        _ => {},
    }
}

proof fn lemma_number_sides(a: Number, b: Number)
    ensures
        number_same(a, b) == number_same(b, a),
{
    match (a, b) {
        (Number::Float(x), Number::Float(y)) => {
            assert(x << 1u64 == 0 ==> !((x >> 52u64) & 0x7ff == 0x7ff && x & 0xf_ffff_ffff_ffff != 0))
                by (bit_vector);
            assert(y << 1u64 == 0 ==> !((y >> 52u64) & 0x7ff == 0x7ff && y & 0xf_ffff_ffff_ffff != 0))
                by (bit_vector);
        },
        _ => {},
    }
}

/// Which of two values comes first makes no difference to whether they are the same.
pub proof fn law_sameness_has_no_sides(a: Json, b: Json)
    ensures
        json_same(a, b) == json_same(b, a),
    decreases a,
{
    match (a, b) {
        (Json::Number(x), Json::Number(y)) => {
            lemma_number_sides(x, y);
        },
        (Json::Array(x), Json::Array(y)) => {
            if x.len() == y.len() {
                assert forall|i: int| 0 <= i < x.len() implies json_same(#[trigger] x[i], y[i])
                    == json_same(y[i], x[i]) by {
                    law_sameness_has_no_sides(x[i], y[i]);
                }
                if json_same(b, a) {
                    assert forall|i: int| 0 <= i < x.len() implies json_same(
                        #[trigger] x[i],
                        y[i],
                    ) by {
                        assert(json_same(y[i], x[i]));
                    }
                }
            }
        },
        (Json::Object(x), Json::Object(y)) => {
            if x.dom() == y.dom() && x.dom().finite() {
                assert forall|k: Seq<char>| #[trigger] x.dom().contains(k) implies json_same(
                    x[k],
                    y[k],
                ) == json_same(y[k], x[k]) by {
                    assert(decreases_to!(a => x[k]));
                    law_sameness_has_no_sides(x[k], y[k]);
                }
                if json_same(b, a) {
                    assert forall|k: Seq<char>| #[trigger] x.dom().contains(k) implies json_same(
                        x[k],
                        y[k],
                    ) by {
                        assert(y.dom().contains(k));
                    }
                }
                if json_same(a, b) {
                    assert forall|k: Seq<char>| #[trigger] y.dom().contains(k) implies json_same(
                        y[k],
                        x[k],
                    ) by {
                        assert(x.dom().contains(k));
                    }
                }
            }
        },
        _ => {},
    }
}

/// A list without a text holds every other item that it held, and not the text.
pub proof fn law_only_the_text_is_taken_out(items: Seq<Json>, text: Seq<char>, n: int, one: Json)
    requires
        0 <= n <= items.len(),
    ensures
        without_text(items, text, n).contains(one) <==> items.take(n).contains(one) && one
            != Json::Text(text),
    decreases n,
{
    let more = items.take(n);
    let all = without_text(items, text, n);
    if n > 0 {
        law_only_the_text_is_taken_out(items, text, n - 1, one);
        let before = without_text(items, text, n - 1);
        let fewer = items.take(n - 1);
        assert(more =~= fewer.push(items[n - 1]));
        assert(more[n - 1] == items[n - 1]);
        if more.contains(one) {
            let i = choose|i: int| 0 <= i < more.len() && more[i] == one;
            if i < n - 1 {
                assert(fewer[i] == one);
            }
        }
        if fewer.contains(one) {
            let i = choose|i: int| 0 <= i < fewer.len() && fewer[i] == one;
            assert(more[i] == one);
        }
        if before.contains(one) {
            let i = choose|i: int| 0 <= i < before.len() && before[i] == one;
            assert(all[i] == one);
        }
        if all.contains(one) {
            let i = choose|i: int| 0 <= i < all.len() && all[i] == one;
            if i < before.len() {
                assert(before[i] == one);
            }
        }
        if items[n - 1] != Json::Text(text) {
            assert(all.last() == items[n - 1]);
        }
    }
}

} // verus!
