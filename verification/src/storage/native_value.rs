//! Values on disk: a byte that says what follows, then the value.
use crate::error::{bad_data, bad_input, failure, Error, ErrorKind, Failure};
use crate::storage::json_text::{
    is_integral, json_bytes, json_text, lemma_shallow_integral, parses_as, shallow, MAX_JSON_DEPTH,
};
use crate::storage::varint::{
    law_varint_round_trip, read_varint, varint_at, varint_bytes, write_varint,
};
use crate::text::{concat2, owned};
use crate::value::{
    document_value, finite, group_value, held, Json, JsonValue, Number,
};
use vstd::bytes::{
    lemma_auto_spec_u64_to_from_le_bytes, spec_u64_from_le_bytes, spec_u64_to_le_bytes,
    u64_from_le_bytes, u64_to_le_bytes,
};
use vstd::prelude::*;
use vstd::slice::slice_subrange;
use vstd::utf8::{
    decode_utf8, encode_utf8, encode_utf8_decode_utf8, encode_utf8_valid_utf8, valid_utf8,
};

verus! {

/// The bytes of a value. Those of an array or an object hold its JSON text.
pub open spec fn native_bytes(value: Json, json: Seq<u8>) -> Seq<u8> {
    match value {
        Json::Null => seq![0x00u8],
        Json::Bool(b) => if b {
            seq![0x02u8]
        } else {
            seq![0x01u8]
        },
        Json::Number(Number::PosInt(n)) => if n <= i64::MAX {
            seq![0x03u8] + spec_u64_to_le_bytes(n)
        } else {
            seq![0x04u8] + spec_u64_to_le_bytes(n)
        },
        Json::Number(Number::NegInt(n)) => seq![0x03u8] + spec_u64_to_le_bytes(n as u64),
        Json::Number(Number::Float(bits)) => seq![0x05u8] + spec_u64_to_le_bytes(bits),
        Json::Text(s) => seq![0x06u8] + varint_bytes(encode_utf8(s).len()) + encode_utf8(s),
        Json::Array(_) => seq![0x07u8] + varint_bytes(json.len()) + json,
        Json::Object(_) => seq![0x08u8] + varint_bytes(json.len()) + json,
    }
}

fn push_bytes(bytes: &mut Vec<u8>, more: &[u8])
    ensures
        final(bytes)@ == old(bytes)@ + more@,
{
    let ghost start = bytes@;
    let mut i: usize = 0;
    assert(start + more@.subrange(0, 0) =~= start);
    while i < more.len()
        invariant
            i <= more@.len(),
            bytes@ == start + more@.subrange(0, i as int),
        decreases more@.len() - i,
    {
        bytes.push(more[i]);
        i += 1;
        assert(start + more@.subrange(0, i as int) =~= (start + more@.subrange(0, i - 1)).push(
            more@[i - 1],
        ));
    }
    assert(more@.subrange(0, i as int) =~= more@);
}

fn push_number(bytes: &mut Vec<u8>, mark: u8, n: u64)
    ensures
        final(bytes)@ == old(bytes)@ + (seq![mark] + spec_u64_to_le_bytes(n)),
{
    let ghost start = bytes@;
    bytes.push(mark);
    let little = u64_to_le_bytes(n);
    push_bytes(bytes, little.as_slice());
    assert(bytes@ =~= start + (seq![mark] + spec_u64_to_le_bytes(n)));
}

fn push_text(bytes: &mut Vec<u8>, mark: u8, text: &[u8])
    ensures
        final(bytes)@ == old(bytes)@ + (seq![mark] + varint_bytes(text@.len()) + text@),
        text@.len() <= u64::MAX,
{
    let ghost start = bytes@;
    bytes.push(mark);
    write_varint(text.len() as u64, bytes);
    push_bytes(bytes, text);
    assert(bytes@ =~= start + (seq![mark] + varint_bytes(text@.len()) + text@));
}

/// The JSON text with which a value is stored, where it is an array or an object: where all its
/// numbers are integers, what it is written as; where not, the text that is given for it.
pub open spec fn stored_text(val: JsonValue, given: Seq<u8>) -> Result<Seq<u8>, Seq<char>> {
    if !(val@ is Array || val@ is Object) || !val.integral() {
        Ok(given)
    } else {
        json_text(val@)
    }
}

/// The byte that says what a value is.
pub open spec fn native_mark(value: Json) -> u8 {
    native_bytes(value, Seq::empty())[0]
}

/// Whether a value is read back from any bytes into which others, that start with `before`, are
/// continued, and reading ends behind it.
pub open spec fn read_back(before: Seq<u8>, bytes: Seq<u8>, value: Json) -> bool {
    forall|after: Seq<u8>|
        #[trigger] native_at(bytes + after, before.len() as int) == (
            Ok::<Json, Failure>(value),
            bytes.len() as int,
        )
}

/// The JSON text of an array or an object, which is given where a number in it is no integer.
fn text_of(val: &JsonValue, float_json: &[u8]) -> (r: Result<Vec<u8>, String>)
    requires
        val@ is Array || val@ is Object,
    ensures
        match (stored_text(*val, float_json@), r) {
            (Ok(a), Ok(b)) => b@ == a,
            (Err(a), Err(b)) => b@ == a,
            _ => false,
        },
        shallow(val@, MAX_JSON_DEPTH as int) ==> r is Ok && parses_as((r->Ok_0)@, val@),
{
    if is_integral(val) {
        json_bytes(val)
    } else {
        proof {
            if shallow(val@, MAX_JSON_DEPTH as int) {
                lemma_shallow_integral(*val, MAX_JSON_DEPTH as int);
            }
        }
        let mut text: Vec<u8> = Vec::new();
        push_bytes(&mut text, float_json);
        assert(text@ =~= float_json@);
        Ok(text)
    }
}

/// Adds the bytes of a value. An array or an object is stored as its JSON text; where a number in
/// it is no integer, `float_json` is that text. A value that holds no such number, nested no
/// deeper than the parser goes, is read back, whatever follows it.
pub fn serialize_native_value(val: &JsonValue, float_json: &[u8], bytes: &mut Vec<u8>) -> (r: Result<
    (),
    Error,
>)
    ensures
        match (stored_text(*val, float_json@), r) {
            (Ok(json), Ok(())) => final(bytes)@ == old(bytes)@ + native_bytes(val@, json),
            (Err(message), Err(e)) => e@ == bad_input(message) && final(bytes)@ == old(bytes)@.push(
                native_mark(val@),
            ),
            _ => false,
        },
        shallow(val@, MAX_JSON_DEPTH as int) ==> r is Ok && read_back(
            old(bytes)@,
            final(bytes)@,
            val@,
        ),
        val@ matches Json::Number(n) && n.proper() ==> r is Ok && read_back(
            old(bytes)@,
            final(bytes)@,
            val@,
        ),
{
    broadcast use group_value;

    let ghost start = bytes@;
    match val {
        JsonValue::Null => {
            bytes.push(0x00);
            assert(bytes@ =~= start + seq![0x00u8]);
        },
        JsonValue::Bool(b) => {
            if *b {
                bytes.push(0x02);
                assert(bytes@ =~= start + seq![0x02u8]);
            } else {
                bytes.push(0x01);
                assert(bytes@ =~= start + seq![0x01u8]);
            }
        },
        JsonValue::Number(num) => {
            match *num {
                Number::PosInt(n) => {
                    if n <= i64::MAX as u64 {
                        push_number(bytes, 0x03, n);
                    } else {
                        push_number(bytes, 0x04, n);
                    }
                },
                Number::NegInt(n) => {
                    push_number(bytes, 0x03, #[verifier::truncate] (n as u64));
                },
                Number::Float(bits) => {
                    push_number(bytes, 0x05, bits);
                },
            }
        },
        JsonValue::String(s) => {
            push_text(bytes, 0x06, s.as_str().as_bytes());
        },
        JsonValue::Array(_) => match text_of(val, float_json) {
            Ok(json) => {
                push_text(bytes, 0x07, json.as_slice());
                proof {
                    if shallow(val@, MAX_JSON_DEPTH as int) {
                        lemma_read_back(start, val@, json@);
                    }
                }
            },
            Err(message) => {
                bytes.push(0x07);
                return Err(Error::invalid_input(message));
            },
        },
        JsonValue::Object(_) => match text_of(val, float_json) {
            Ok(json) => {
                push_text(bytes, 0x08, json.as_slice());
                proof {
                    if shallow(val@, MAX_JSON_DEPTH as int) {
                        lemma_read_back(start, val@, json@);
                    }
                }
            },
            Err(message) => {
                bytes.push(0x08);
                return Err(Error::invalid_input(message));
            },
        },
    }
    proof {
        if !(val@ is Array || val@ is Object) && (val@ matches Json::Number(n) ==> n.proper()) {
            lemma_read_back(start, val@, float_json@);
        }
    }
    Ok(())
}

/// The text of the error for bytes that are not UTF-8.
pub uninterp spec fn utf8_problem(bytes: Seq<u8>) -> Seq<char>;

/// `std::str::from_utf8` gives the text of bytes that are UTF-8, and an error for others. The
/// text of the error depends on the bytes alone.
#[verifier::external_body]
fn utf8_text(bytes: &[u8]) -> (r: Result<String, String>)
    ensures
        match r {
            Ok(s) => valid_utf8(bytes@) && s@ == decode_utf8(bytes@),
            Err(message) => !valid_utf8(bytes@) && message@ == utf8_problem(bytes@),
        },
{
    std::str::from_utf8(bytes).map(|s| s.to_string()).map_err(|error| error.to_string())
}

/// What parsing bytes as a JSON array gives: the array, or the text of the error.
pub uninterp spec fn parsed_array(bytes: Seq<u8>) -> Result<Json, Seq<char>>;

/// What parsing bytes as a JSON object gives: the object, or the text of the error.
pub uninterp spec fn parsed_object(bytes: Seq<u8>) -> Result<Json, Seq<char>>;

/// `serde_json::from_slice`, asked for a list of values, parses bytes as one JSON array, or
/// reports an error; which of the two, the array and the text of the error depend on the bytes
/// alone.
#[verifier::external_body]
fn parse_array(bytes: &[u8]) -> (r: Result<serde_json::Value, String>)
    ensures
        match r {
            Ok(document) => parsed_array(bytes@) == Ok::<Json, Seq<char>>(held(document)) && held(
                document,
            ) is Array,
            Err(message) => parsed_array(bytes@) == Err::<Json, Seq<char>>(message@),
        },
{
    serde_json::from_slice(bytes).map(serde_json::Value::Array).map_err(|error| error.to_string())
}

/// `serde_json::from_slice`, asked for a map of values, parses bytes as one JSON object, or
/// reports an error; which of the two, the object and the text of the error depend on the bytes
/// alone.
#[verifier::external_body]
fn parse_object(bytes: &[u8]) -> (r: Result<serde_json::Value, String>)
    ensures
        match r {
            Ok(document) => parsed_object(bytes@) == Ok::<Json, Seq<char>>(held(document)) && held(
                document,
            ) is Object,
            Err(message) => parsed_object(bytes@) == Err::<Json, Seq<char>>(message@),
        },
{
    serde_json::from_slice(bytes).map(serde_json::Value::Object).map_err(|error| error.to_string())
}

/// The failure of bytes that end too early.
pub open spec fn cut_off(message: Seq<char>) -> Failure {
    failure(ErrorKind::UnexpectedEof, message)
}

/// The integer whose bits are those of an unsigned one.
pub open spec fn signed_number(bits: u64) -> Number {
    if (bits as i64) < 0 {
        Number::NegInt(bits as i64)
    } else {
        Number::PosInt((bits as i64) as u64)
    }
}

/// The eight bytes at a position as a number, and the position behind them.
pub open spec fn number_at(bytes: Seq<u8>, at: int, message: Seq<char>) -> (Result<u64, Failure>, int) {
    if at + 8 > bytes.len() {
        (Err(cut_off(message)), at)
    } else {
        (Ok(spec_u64_from_le_bytes(bytes.subrange(at, at + 8))), at + 8)
    }
}

/// The bytes at a position that follow their length, and the positions before and behind them.
pub open spec fn text_at(bytes: Seq<u8>, at: int, message: Seq<char>) -> (
    Result<Seq<u8>, Failure>,
    int,
    int,
) {
    match varint_at(bytes, at) {
        (Err(f), end) => (Err(f), end, end),
        (Ok(len), end) => if end + len > bytes.len() {
            (Err(cut_off(message)), end, end)
        } else {
            (Ok(bytes.subrange(end, (end + len) as int)), end, (end + len) as int)
        },
    }
}

/// What a read gave, and where it ended.
pub type NativeRead = (Result<Json, Failure>, int);

/// What bytes that hold a text give, once the text was looked at: a text that is wrong leaves
/// the position in front of it.
pub open spec fn text_read(
    read: (Result<Seq<u8>, Failure>, int, int),
    looked_at: spec_fn(Seq<u8>) -> Result<Json, Seq<char>>,
) -> NativeRead {
    match read.0 {
        Err(f) => (Err(f), read.1),
        Ok(text) => match looked_at(text) {
            Ok(value) => (Ok(value), read.2),
            Err(message) => (Err(bad_data(message)), read.1),
        },
    }
}

/// What bytes give as UTF-8.
pub open spec fn utf8_value(bytes: Seq<u8>) -> Result<Json, Seq<char>> {
    if valid_utf8(bytes) {
        Ok(Json::Text(decode_utf8(bytes)))
    } else {
        Err(utf8_problem(bytes))
    }
}

/// A half of a byte as an upper-case digit.
pub open spec fn upper_hex_digit(n: u8) -> char {
    if n < 10 {
        (n + 48) as char
    } else {
        (n + 55) as char
    }
}

/// The message for a byte that no value starts with.
pub open spec fn unknown_mark(byte: u8) -> Seq<char> {
    "Unknown value type byte: 0x"@ + seq![upper_hex_digit(byte / 16), upper_hex_digit(byte % 16)]
}

/// The value that stands at a position, and the position behind it; or what is wrong, and the
/// position that was reached.
pub open spec fn native_at(bytes: Seq<u8>, at: int) -> NativeRead {
    if at >= bytes.len() {
        (Err(cut_off("EOF reading value type"@)), at)
    } else {
        let mark = bytes[at];
        let next = at + 1;
        if mark == 0x00 {
            (Ok(Json::Null), next)
        } else if mark == 0x01 {
            (Ok(Json::Bool(false)), next)
        } else if mark == 0x02 {
            (Ok(Json::Bool(true)), next)
        } else if mark == 0x03 {
            match number_at(bytes, next, "EOF reading i64"@) {
                (Ok(n), end) => (Ok(Json::Number(signed_number(n))), end),
                (Err(f), end) => (Err(f), end),
            }
        } else if mark == 0x04 {
            match number_at(bytes, next, "EOF reading u64"@) {
                (Ok(n), end) => (Ok(Json::Number(Number::PosInt(n))), end),
                (Err(f), end) => (Err(f), end),
            }
        } else if mark == 0x05 {
            match number_at(bytes, next, "EOF reading f64"@) {
                (Ok(bits), end) => if finite(bits) {
                    (Ok(Json::Number(Number::Float(bits))), end)
                } else {
                    (Err(bad_data("Invalid f64 number"@)), end)
                },
                (Err(f), end) => (Err(f), end),
            }
        } else if mark == 0x06 {
            text_read(text_at(bytes, next, "EOF reading string"@), |text: Seq<u8>| utf8_value(text))
        } else if mark == 0x07 {
            text_read(text_at(bytes, next, "EOF reading array"@), |text: Seq<u8>| parsed_array(text))
        } else if mark == 0x08 {
            text_read(
                text_at(bytes, next, "EOF reading object"@),
                |text: Seq<u8>| parsed_object(text),
            )
        } else {
            (Err(bad_data(unknown_mark(mark))), next)
        }
    }
}

/// Reads eight bytes as a number, and moves behind them.
fn read_number(bytes: &[u8], offset: &mut usize, message: &str) -> (r: Result<u64, Error>)
    requires
        *old(offset) <= bytes@.len(),
    ensures
        ({
            let (wanted, end) = number_at(bytes@, *old(offset) as int, message@);
            &&& *final(offset) == end
            &&& match (wanted, r) {
                (Ok(n), Ok(m)) => n == m,
                (Err(f), Err(e)) => e@ == f,
                _ => false,
            }
        }),
{
    if bytes.len() - *offset < 8 {
        return Err(Error::new(ErrorKind::UnexpectedEof, owned(message)));
    }
    let n: u64 = u64_from_le_bytes(slice_subrange(bytes, *offset, *offset + 8));
    *offset = *offset + 8;
    Ok(n)
}

/// Reads a length, and gives the bytes behind it; moves in front of them.
fn read_text<'a>(bytes: &'a [u8], offset: &mut usize, message: &str) -> (r: Result<&'a [u8], Error>)
    requires
        *old(offset) <= bytes@.len(),
    ensures
        ({
            let (wanted, start, end) = text_at(bytes@, *old(offset) as int, message@);
            &&& *final(offset) == start
            &&& match (wanted, r) {
                (Ok(a), Ok(b)) => a == b@ && end == start + b@.len() && end <= bytes@.len(),
                (Err(f), Err(e)) => e@ == f,
                _ => false,
            }
        }),
{
    let len = match read_varint(bytes, offset) {
        Ok(len) => len,
        Err(e) => {
            return Err(e);
        },
    };
    if len > (bytes.len() - *offset) as u64 {
        return Err(Error::new(ErrorKind::UnexpectedEof, owned(message)));
    }
    Ok(slice_subrange(bytes, *offset, *offset + len as usize))
}

fn upper_hex_char(n: u8) -> (r: char)
    requires
        n < 16,
    ensures
        r == upper_hex_digit(n),
{
    if n < 10 {
        (n + 48) as char
    } else {
        (n + 55) as char
    }
}

fn unknown_mark_message(byte: u8) -> (r: String)
    ensures
        r@ == unknown_mark(byte),
{
    let mut digits = String::new();
    digits.push(upper_hex_char(byte / 16));
    digits.push(upper_hex_char(byte % 16));
    assert(digits@ =~= seq![upper_hex_digit(byte / 16), upper_hex_digit(byte % 16)]);
    concat2("Unknown value type byte: 0x", digits.as_str())
}

/// Reads the value that stands at `offset`, and moves behind it.
pub fn deserialize_native_value(bytes: &[u8], offset: &mut usize) -> (r: Result<JsonValue, Error>)
    ensures
        ({
            let (wanted, end) = native_at(bytes@, *old(offset) as int);
            &&& *final(offset) == end
            &&& match (wanted, r) {
                (Ok(v), Ok(w)) => w@ == v,
                (Err(f), Err(e)) => e@ == f,
                _ => false,
            }
        }),
{
    broadcast use group_value;

    if *offset >= bytes.len() {
        return Err(Error::new(ErrorKind::UnexpectedEof, owned("EOF reading value type")));
    }
    let mark: u8 = bytes[*offset];
    *offset = *offset + 1;
    match mark {
        0x00 => Ok(JsonValue::Null),
        0x01 => Ok(JsonValue::Bool(false)),
        0x02 => Ok(JsonValue::Bool(true)),
        0x03 => match read_number(bytes, offset, "EOF reading i64") {
            Ok(n) => {
                let i: i64 = #[verifier::truncate] (n as i64);
                let number = if i < 0 {
                    Number::NegInt(i)
                } else {
                    Number::PosInt(i as u64)
                };
                Ok(JsonValue::Number(number))
            },
            Err(e) => Err(e),
        },
        0x04 => match read_number(bytes, offset, "EOF reading u64") {
            Ok(n) => Ok(JsonValue::Number(Number::PosInt(n))),
            Err(e) => Err(e),
        },
        0x05 => match read_number(bytes, offset, "EOF reading f64") {
            Ok(bits) => match Number::from_float_bits(bits) {
                Some(number) => Ok(JsonValue::Number(number)),
                None => Err(Error::invalid_data(owned("Invalid f64 number"))),
            },
            Err(e) => Err(e),
        },
        0x06 => match read_text(bytes, offset, "EOF reading string") {
            Ok(text) => match utf8_text(text) {
                Ok(s) => {
                    *offset = *offset + text.len();
                    Ok(JsonValue::String(s))
                },
                Err(message) => Err(Error::invalid_data(message)),
            },
            Err(e) => Err(e),
        },
        0x07 => match read_text(bytes, offset, "EOF reading array") {
            Ok(text) => match parse_array(text) {
                Ok(document) => {
                    *offset = *offset + text.len();
                    Ok(document_value(document))
                },
                Err(message) => Err(Error::invalid_data(message)),
            },
            Err(e) => Err(e),
        },
        0x08 => match read_text(bytes, offset, "EOF reading object") {
            Ok(text) => match parse_object(text) {
                Ok(document) => {
                    *offset = *offset + text.len();
                    Ok(document_value(document))
                },
                Err(message) => Err(Error::invalid_data(message)),
            },
            Err(e) => Err(e),
        },
        _ => Err(Error::invalid_data(unknown_mark_message(mark))),
    }
}

proof fn lemma_text_read_back(before: Seq<u8>, mark: u8, text: Seq<u8>, after: Seq<u8>, message: Seq<char>)
    requires
        text.len() <= u64::MAX,
    ensures
        ({
            let own = seq![mark] + varint_bytes(text.len()) + text;
            let bytes = before + own + after;
            &&& bytes[before.len() as int] == mark
            &&& text_at(bytes, (before.len() + 1) as int, message).0 == Ok::<Seq<u8>, Failure>(text)
            &&& text_at(bytes, (before.len() + 1) as int, message).2 == before.len() + own.len()
        }),
{
    let own = seq![mark] + varint_bytes(text.len()) + text;
    let bytes = before + own + after;
    let front = before.push(mark);
    let len = text.len() as u64;
    assert(bytes =~= front + varint_bytes(len as nat) + (text + after));
    law_varint_round_trip(front, len, text + after);
    let start = (front.len() + varint_bytes(len as nat).len()) as int;
    assert(bytes.subrange(start, (start + text.len()) as int) =~= text);
}

proof fn lemma_number_read_back(before: Seq<u8>, mark: u8, n: u64, after: Seq<u8>, message: Seq<char>)
    ensures
        ({
            let own = seq![mark] + spec_u64_to_le_bytes(n);
            let bytes = before + own + after;
            &&& bytes[before.len() as int] == mark
            &&& number_at(bytes, (before.len() + 1) as int, message) == (
                Ok::<u64, Failure>(n),
                (before.len() + own.len()) as int,
            )
        }),
{
    lemma_auto_spec_u64_to_from_le_bytes();
    let own = seq![mark] + spec_u64_to_le_bytes(n);
    let bytes = before + own + after;
    let at = (before.len() + 1) as int;
    assert(spec_u64_to_le_bytes(n).len() == 8);
    assert(bytes.subrange(at, at + 8) =~= spec_u64_to_le_bytes(n));
}

/// A value that was written is read back, and reading ends behind it. Numbers are of the form
/// that their variant stands for, and the JSON text of an array or an object parses as that
/// array or object.
pub proof fn law_native_value_round_trip(
    before: Seq<u8>,
    value: Json,
    json: Seq<u8>,
    after: Seq<u8>,
)
    requires
        value matches Json::Number(n) ==> n.proper(),
        value matches Json::Text(s) ==> encode_utf8(s).len() <= u64::MAX,
        value is Array ==> json.len() <= u64::MAX && parsed_array(json) == Ok::<Json, Seq<char>>(
            value,
        ),
        value is Object ==> json.len() <= u64::MAX && parsed_object(json) == Ok::<Json, Seq<char>>(
            value,
        ),
    ensures
        native_at(before + native_bytes(value, json) + after, before.len() as int) == (
            Ok::<Json, Failure>(value),
            (before.len() + native_bytes(value, json).len()) as int,
        ),
{
    let own = native_bytes(value, json);
    let bytes = before + own + after;
    match value {
        Json::Null => {
            assert(bytes[before.len() as int] == own[0]);
        },
        Json::Bool(_) => {
            assert(bytes[before.len() as int] == own[0]);
        },
        Json::Number(Number::PosInt(n)) => {
            if n <= i64::MAX {
                lemma_number_read_back(before, 0x03, n, after, "EOF reading i64"@);
                assert((n as i64) >= 0 && ((n as i64) as u64) == n) by (bit_vector)
                    requires
                        n <= 0x7fff_ffff_ffff_ffff,
                ;
            } else {
                lemma_number_read_back(before, 0x04, n, after, "EOF reading u64"@);
            }
        },
        Json::Number(Number::NegInt(n)) => {
            lemma_number_read_back(before, 0x03, n as u64, after, "EOF reading i64"@);
            assert(((n as u64) as i64) == n) by (bit_vector);
        },
        Json::Number(Number::Float(bits)) => {
            lemma_number_read_back(before, 0x05, bits, after, "EOF reading f64"@);
        },
        Json::Text(s) => {
            lemma_text_read_back(before, 0x06, encode_utf8(s), after, "EOF reading string"@);
            encode_utf8_valid_utf8(s);
            encode_utf8_decode_utf8(s);
        },
        Json::Array(_) => {
            lemma_text_read_back(before, 0x07, json, after, "EOF reading array"@);
        },
        Json::Object(_) => {
            lemma_text_read_back(before, 0x08, json, after, "EOF reading object"@);
        },
    }
}

/// What is read back where one thing follows is read back whatever follows.
proof fn lemma_read_back(before: Seq<u8>, value: Json, json: Seq<u8>)
    requires
        value matches Json::Number(n) ==> n.proper(),
        value matches Json::Text(s) ==> encode_utf8(s).len() <= u64::MAX,
        value is Array ==> json.len() <= u64::MAX && parsed_array(json) == Ok::<Json, Seq<char>>(
            value,
        ),
        value is Object ==> json.len() <= u64::MAX && parsed_object(json) == Ok::<Json, Seq<char>>(
            value,
        ),
    ensures
        read_back(before, before + native_bytes(value, json), value),
{
    assert forall|after: Seq<u8>| #[trigger]
        native_at(before + native_bytes(value, json) + after, before.len() as int) == (
            Ok::<Json, Failure>(value),
            (before + native_bytes(value, json)).len() as int,
        ) by {
        law_native_value_round_trip(before, value, json, after);
    }
}

} // verus!
