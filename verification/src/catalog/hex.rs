//! Bytes as texts of hexadecimal digits.
use crate::error::{bad_data, Error, ErrorKind, Failure};
use crate::text::{ascii_lower, owned};
use vstd::prelude::*;
use vstd::utf8::{
    encode_scalar, encode_utf8, has_width_1_encoding, is_ascii_chars, is_ascii_chars_encode_utf8,
};

verus! {

/// The digit of a number below 16.
pub open spec fn hex_digit(n: int) -> char {
    if n < 10 {
        (('0' as u32) + n) as char
    } else {
        (('a' as u32) + (n - 10)) as char
    }
}

/// The text of bytes: two digits for each.
pub open spec fn hex_text(bytes: Seq<u8>) -> Seq<char> {
    Seq::new(
        2 * bytes.len(),
        |i: int|
            if i % 2 == 0 {
                hex_digit(bytes[i / 2] as int / 16)
            } else {
                hex_digit(bytes[i / 2] as int % 16)
            },
    )
}

/// The number of a digit.
pub open spec fn digit_value(byte: u8) -> Option<u8> {
    if 0x30 <= byte <= 0x39 {
        Some((byte - 0x30) as u8)
    } else if 0x61 <= byte <= 0x66 {
        Some((byte - 0x61 + 10) as u8)
    } else if 0x41 <= byte <= 0x46 {
        Some((byte - 0x41 + 10) as u8)
    } else {
        None
    }
}

/// The failure of a text that is not made of digits.
pub open spec fn bad_digit() -> Failure {
    bad_data("Invalid backup archive hex payload"@)
}

/// Whether all bytes are digits.
pub open spec fn all_digits(raw: Seq<u8>) -> bool {
    forall|i: int| 0 <= i < raw.len() ==> digit_value(#[trigger] raw[i]) is Some
}

/// The bytes that the digits stand for.
pub open spec fn hex_bytes(raw: Seq<u8>) -> Seq<u8> {
    Seq::new(
        raw.len() / 2,
        |i: int| ((digit_value(raw[2 * i])->0) * 16 + digit_value(raw[2 * i + 1])->0) as u8,
    )
}

/// The bytes that a text stands for, or why it stands for none.
pub open spec fn hex_decoded(raw: Seq<char>) -> Result<Seq<u8>, Failure> {
    let bytes = encode_utf8(raw);
    if bytes.len() % 2 != 0 {
        Err(bad_data("Invalid backup archive hex payload length"@))
    } else if !all_digits(bytes) {
        Err(bad_digit())
    } else {
        Ok(hex_bytes(bytes))
    }
}

fn digit_of(n: u8) -> (r: char)
    requires
        n < 16,
    ensures
        r == hex_digit(n as int),
{
    if n < 10 {
        (0x30u8 + n) as char
    } else {
        (0x61u8 + (n - 10)) as char
    }
}

pub fn encode_hex(bytes: &[u8]) -> (r: String)
    ensures
        r@ == hex_text(bytes@),
{
    let mut out = String::new();
    let mut i: usize = 0;
    assert(hex_text(bytes@).take(0) =~= Seq::empty());
    while i < bytes.len()
        invariant
            i <= bytes@.len(),
            out@ == hex_text(bytes@).take(2 * i),
        decreases bytes@.len() - i,
    {
        let byte = bytes[i];
        let ghost before = out@;
        out.push(digit_of(byte / 16));
        out.push(digit_of(byte % 16));
        proof {
            let all = hex_text(bytes@);
            assert((2 * i) / 2 == i && (2 * i) % 2 == 0);
            assert((2 * i + 1) / 2 == i && (2 * i + 1) % 2 == 1);
            assert(all[2 * i] == hex_digit(byte as int / 16));
            assert(all[2 * i + 1] == hex_digit(byte as int % 16));
            assert(all.take(2 * (i + 1)) =~= all.take(2 * i).push(all[2 * i]).push(all[2 * i + 1]));
        }
        i = i + 1;
    }
    assert(hex_text(bytes@).take((2 * bytes@.len()) as int) =~= hex_text(bytes@));
    out
}

pub fn hex_value(byte: u8) -> (r: Result<u8, Error>)
    ensures
        match (digit_value(byte), r) {
            (Some(a), Ok(b)) => a == b && b < 16,
            (None, Err(e)) => e@ == bad_digit(),
            _ => false,
        },
{
    if 0x30 <= byte && byte <= 0x39 {
        Ok(byte - 0x30)
    } else if 0x61 <= byte && byte <= 0x66 {
        Ok(byte - 0x61 + 10)
    } else if 0x41 <= byte && byte <= 0x46 {
        Ok(byte - 0x41 + 10)
    } else {
        Err(Error::invalid_data(owned("Invalid backup archive hex payload")))
    }
}

pub fn decode_hex(raw: &str) -> (r: Result<Vec<u8>, Error>)
    ensures
        match (hex_decoded(raw@), r) {
            (Ok(a), Ok(b)) => b@ == a,
            (Err(f), Err(e)) => e@ == f,
            _ => false,
        },
{
    let digits = raw.as_bytes();
    if digits.len() % 2 != 0 {
        return Err(
            Error::invalid_data(owned("Invalid backup archive hex payload length")),
        );
    }
    let mut bytes: Vec<u8> = Vec::new();
    let mut i: usize = 0;
    while i < digits.len()
        invariant
            digits@ == encode_utf8(raw@),
            digits@.len() % 2 == 0,
            i <= digits@.len(),
            i % 2 == 0,
            bytes@.len() * 2 == i,
            forall|j: int| 0 <= j < i ==> digit_value(#[trigger] digits@[j]) is Some,
            forall|j: int| 0 <= j < bytes@.len() ==> bytes@[j] == #[trigger] hex_bytes(digits@)[j],
        decreases digits@.len() - i,
    {
        let high = match hex_value(digits[i]) {
            Ok(high) => high,
            Err(e) => {
                return Err(e);
            },
        };
        let low = match hex_value(digits[i + 1]) {
            Ok(low) => low,
            Err(e) => {
                return Err(e);
            },
        };
        let ghost n = bytes@.len() as int;
        bytes.push(high * 16 + low);
        assert(hex_bytes(digits@)[n] == bytes@[n]);
        i = i + 2;
    }
    assert(bytes@ =~= hex_bytes(digits@));
    Ok(bytes)
}

/// Bytes that were written as digits are read back.
pub proof fn law_hex_round_trip(bytes: Seq<u8>)
    ensures
        hex_decoded(hex_text(bytes)) == Ok::<Seq<u8>, Failure>(bytes),
{
    let text = hex_text(bytes);
    assert(is_ascii_chars(text)) by {
        assert forall|i: int| 0 <= i < text.len() implies '\0' <= #[trigger] text[i]
            && text[i] <= '\u{7f}' by {
            assert(0 <= i / 2 < bytes.len());
        }
    }
    is_ascii_chars_encode_utf8(text);
    let raw = encode_utf8(text);
    assert(raw.len() == 2 * bytes.len());
    assert forall|i: int| 0 <= i < bytes.len() implies digit_value(raw[2 * i]) == Some(
        (bytes[i] / 16) as u8,
    ) && digit_value(raw[2 * i + 1]) == Some((bytes[i] % 16) as u8) by {
        assert((2 * i) / 2 == i && (2 * i) % 2 == 0);
        assert((2 * i + 1) / 2 == i && (2 * i + 1) % 2 == 1);
        assert(raw[2 * i] == text[2 * i] as u8);
        assert(raw[2 * i + 1] == text[2 * i + 1] as u8);
        assert(text[2 * i] == hex_digit(bytes[i] as int / 16));
        assert(text[2 * i + 1] == hex_digit(bytes[i] as int % 16));
    }
    assert forall|k: int| 0 <= k < raw.len() implies digit_value(#[trigger] raw[k]) is Some by {
        let i = k / 2;
        assert(k == 2 * i || k == 2 * i + 1);
        assert(digit_value(raw[2 * i]) is Some && digit_value(raw[2 * i + 1]) is Some);
    }
    assert(hex_bytes(raw) =~= bytes) by {
        assert forall|i: int| 0 <= i < bytes.len() implies hex_bytes(raw)[i] == bytes[i] by {
            assert(digit_value(raw[2 * i]) == Some((bytes[i] / 16) as u8));
        }
    }
}

proof fn lemma_small_char(c: char)
    requires
        has_width_1_encoding(c as u32),
    ensures
        '\0' <= c <= '\u{7f}',
{
}

/// Bytes of a UTF-8 text that are all digits are the characters of the text.
proof fn lemma_digits_are_ascii(text: Seq<char>)
    requires
        all_digits(encode_utf8(text)),
    ensures
        is_ascii_chars(text),
    decreases text.len(),
{
    if text.len() > 0 {
        let bytes = encode_utf8(text);
        let first = encode_scalar(text[0] as u32);
        let rest = encode_utf8(text.drop_first());
        let c = text[0] as u32;
        assert(bytes == first + rest);
        assert(bytes[0] == first[0]);
        assert(digit_value(bytes[0]) is Some);
        assert((0xC0u8 | ((c >> 6) & 0x1F) as u8) >= 0xC0) by (bit_vector);
        assert((0xE0u8 | ((c >> 12) & 0x0F) as u8) >= 0xC0) by (bit_vector);
        assert((0xF0u8 | ((c >> 18) & 0x7) as u8) >= 0xC0) by (bit_vector);
        assert(has_width_1_encoding(c));
        assert(all_digits(rest)) by {
            assert forall|k: int| 0 <= k < rest.len() implies digit_value(
                #[trigger] rest[k],
            ) is Some by {
                assert(rest[k] == bytes[first.len() + k]);
            }
        }
        lemma_digits_are_ascii(text.drop_first());
        assert forall|k: int| 0 <= k < text.len() implies '\0' <= #[trigger] text[k] && text[k]
            <= '\u{7f}' by {
            if k > 0 {
                let next = text.drop_first();
                assert(0 <= k - 1 < next.len());
                assert('\0' <= next[k - 1] && next[k - 1] <= '\u{7f}');
                assert(text[k] == next[k - 1]);
            } else {
                lemma_small_char(text[0]);
            }
        }
    }
}

/// A text that stands for bytes has two digits for each of them, and the bytes are written as
/// the text in lower case.
pub proof fn law_hex_text_is_lower_case(raw: Seq<char>)
    ensures
        hex_decoded(raw) matches Ok(bytes) ==> raw.len() == 2 * bytes.len() && hex_text(bytes)
            == ascii_lower(raw),
{
    if hex_decoded(raw) is Ok {
        let digits = encode_utf8(raw);
        let bytes = hex_bytes(digits);
        lemma_digits_are_ascii(raw);
        is_ascii_chars_encode_utf8(raw);
        assert forall|k: int| 0 <= k < raw.len() implies hex_text(bytes)[k] == ascii_lower(raw)[k] by {
            let i = k / 2;
            assert(k == 2 * i || k == 2 * i + 1);
            let high = digit_value(digits[2 * i])->0;
            let low = digit_value(digits[2 * i + 1])->0;
            assert(digit_value(digits[2 * i]) is Some && digit_value(digits[2 * i + 1]) is Some);
            assert(high < 16 && low < 16);
            assert(bytes[i] == high * 16 + low);
            assert(bytes[i] as int / 16 == high && bytes[i] as int % 16 == low);
            assert(digits[k] == raw[k] as u8);
        }
        assert(hex_text(bytes) =~= ascii_lower(raw));
    }
}

/// A text stands for bytes if and only if it has an even number of bytes, all of them digits.
pub proof fn law_hex_is_refused(raw: Seq<char>)
    ensures
        hex_decoded(raw) is Ok <==> encode_utf8(raw).len() % 2 == 0 && all_digits(encode_utf8(raw)),
        hex_decoded(raw) matches Err(f) ==> f.kind == ErrorKind::InvalidData,
{
}

} // verus!
