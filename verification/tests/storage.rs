use wardrobe::error::ErrorKind;
use wardrobe::offsets::OffsetMap;
use wardrobe::fields::TextMap;
use wardrobe::storage::frames::{check_slot, short_header_error, start_frame, FrameStart, FrameWalk};
use wardrobe::storage::json_text::{is_integral, json_bytes};
use wardrobe::storage::native_value::{deserialize_native_value, serialize_native_value};
use wardrobe::storage::varint::{read_varint, write_varint};
use wardrobe::value::{parse_json, same_value, JsonValue, Number};

fn json(text: &str) -> JsonValue {
    parse_json(text.as_bytes()).expect("text should be JSON")
}

#[test]
fn varints_are_read_back() {
    for n in [0u64, 1, 127, 128, 300, 16384, u64::MAX] {
        let mut bytes = Vec::new();
        write_varint(n, &mut bytes);
        let mut offset = 0usize;
        assert_eq!(read_varint(&bytes, &mut offset), Ok(n));
        assert_eq!(offset, bytes.len());
    }
    let mut bytes = Vec::new();
    write_varint(300, &mut bytes);
    assert_eq!(bytes, vec![0xac, 0x02]);
}

#[test]
fn varints_that_break_off_are_refused() {
    let mut offset = 0usize;
    assert!(read_varint(&[0x80], &mut offset).is_err());
    let mut offset = 0usize;
    assert!(read_varint(&[], &mut offset).is_err());
}

#[test]
fn native_values_are_read_back() {
    for text in ["null", "true", "false", "7", "-7", "1.5", "\"ruby\"", "\"\"", "[1,[2]]", "{\"a\":{\"b\":null}}"] {
        let value = json(text);
        let mut bytes = Vec::new();
        serialize_native_value(&value, &[], &mut bytes).expect("value should be written");
        let mut offset = 0usize;
        let back = deserialize_native_value(&bytes, &mut offset).expect("value should be read");
        assert_eq!(back, value);
        assert_eq!(offset, bytes.len());
    }
}

#[test]
fn native_values_that_break_off_are_refused() {
    let mut bytes = Vec::new();
    serialize_native_value(&json("\"ruby\""), &[], &mut bytes).expect("text should be written");
    for cut in 0..bytes.len() {
        let mut offset = 0usize;
        assert!(deserialize_native_value(&bytes[..cut], &mut offset).is_err());
    }
    let mut offset = 0usize;
    assert!(deserialize_native_value(&[0xff], &mut offset).is_err());
}

#[test]
fn native_values_are_written_as_json_text() {
    let value = json("{\"b\": [1, -2], \"a\": \"x\\n\"}");
    assert!(is_integral(&value));
    let text = b"{\"a\":\"x\\n\",\"b\":[1,-2]}";
    assert_eq!(json_bytes(&value), Ok(text.to_vec()));
    let mut bytes = vec![9u8];
    serialize_native_value(&value, &[], &mut bytes).expect("value should be written");
    assert_eq!(bytes[..3], [9, 0x08, text.len() as u8]);
    assert_eq!(bytes[3..], text[..]);
    bytes.push(0xff);
    let mut offset = 1usize;
    assert_eq!(deserialize_native_value(&bytes, &mut offset), Ok(value));
    assert_eq!(offset, bytes.len() - 1);

    let fraction = json("[1.5]");
    assert!(!is_integral(&fraction));
    let mut bytes = Vec::new();
    serialize_native_value(&fraction, b"[1.5]", &mut bytes).expect("value should be written");
    let mut offset = 0usize;
    assert_eq!(deserialize_native_value(&bytes, &mut offset), Ok(fraction));
}

#[test]
fn deep_values_are_read_as_far_as_the_parser_goes() {
    let nested = |depth: usize| {
        let mut value = JsonValue::Null;
        for _ in 0..depth {
            value = JsonValue::Array(vec![value]);
        }
        value
    };
    for (depth, reads) in [(127, true), (128, false)] {
        let value = nested(depth);
        let mut bytes = Vec::new();
        serialize_native_value(&value, &[], &mut bytes).expect("value should be written");
        let mut offset = 0usize;
        let back = deserialize_native_value(&bytes, &mut offset);
        assert_eq!(back.is_ok(), reads);
        if reads {
            assert_eq!(back, Ok(value));
        }
    }
}

#[test]
fn positions_past_the_end_hold_no_value() {
    let mut offset = 7usize;
    let refused = deserialize_native_value(&[0], &mut offset).expect_err("nothing is there");
    assert_eq!(refused.kind(), ErrorKind::UnexpectedEof);
    assert_eq!(refused.message, "EOF reading value type");
    assert_eq!(offset, 7);
}

#[test]
fn native_texts_are_utf8() {
    let mut bytes = Vec::new();
    serialize_native_value(&json("\"aa\""), &[], &mut bytes).expect("text should be written");
    let last = bytes.len() - 1;
    bytes[last] = 0xff;
    let mut offset = 0usize;
    let refused = deserialize_native_value(&bytes, &mut offset).expect_err("text is no UTF-8");
    assert_eq!(refused.kind(), ErrorKind::InvalidData);
}

#[test]
fn frames_are_walked_one_after_the_other() {
    assert_eq!(start_frame(10, 10, 4), FrameStart::Past);
    assert_eq!(start_frame(10, 0, 4), FrameStart::Header);
    assert_eq!(start_frame(10, 8, 4), FrameStart::Probe { len: 2 });
    assert_eq!(check_slot(10, 2, Some(8)), Ok(8));
    assert!(check_slot(10, 2, Some(9)).is_err());
    assert!(check_slot(10, 2, None).is_err());
    let mut walk = FrameWalk::start(10);
    assert_eq!(walk.pass(Some(4)), Ok((0, 4)));
    assert_eq!(walk.pass(Some(6)), Ok((4, 6)));
    assert_eq!(walk.next_frame(4), FrameStart::Past);
    let refused = short_header_error(&[1, 2]);
    assert!(!refused.message.is_empty());
}

#[test]
fn numbers_keep_their_kind() {
    assert_eq!(json("7"), JsonValue::Number(Number::PosInt(7)));
    assert_eq!(json("-7"), JsonValue::Number(Number::NegInt(-7)));
    assert_eq!(json("1.5"), JsonValue::Number(Number::Float(1.5f64.to_bits())));
    assert_eq!(json("-0.0"), JsonValue::Number(Number::Float((-0.0f64).to_bits())));
    assert_eq!(json("7").as_u64(), Some(7));
    assert_eq!(json("-7").as_i64(), Some(-7));
    assert_eq!(json("-7").as_u64(), None);
}

#[test]
fn objects_do_not_depend_on_the_order_of_their_fields() {
    let a = json("{\"x\":1,\"a\":[true]}");
    let b = json("{\"a\":[true],\"x\":1}");
    assert!(same_value(&a, &b));
    assert_eq!(a, b);
    assert!(!same_value(&a, &json("{\"a\":[true]}")));
    assert!(parse_json(b"{\"a\":").is_err());
    assert!(parse_json(b"").unwrap_err().contains("EOF"));
}

#[test]
fn maps_keep_one_value_for_a_key() {
    let mut map: TextMap<u8> = TextMap::new();
    map.insert("b".to_string(), 1);
    map.insert("a".to_string(), 2);
    map.insert("b".to_string(), 3);
    assert_eq!(map.len(), 2);
    assert_eq!(map.get("b"), Some(&3));
    assert_eq!(map.key_texts(), vec!["a".to_string(), "b".to_string()]);
    assert_eq!(map.remove("a"), Some(2));
    assert_eq!(map.remove("a"), None);
    assert!(!map.contains_key("a"));

    let mut offsets: OffsetMap<u8> = OffsetMap::new();
    offsets.insert(9, 1);
    offsets.insert(4, 2);
    offsets.insert(9, 3);
    assert_eq!(offsets.len(), 2);
    assert_eq!(offsets.offset_list(), vec![4, 9]);
    assert_eq!(offsets.get(9), Some(&3));
    offsets.remove(9);
    assert_eq!(offsets.get(9), None);
}
