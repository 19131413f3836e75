use koi::kserde::json_deserialize::{AnyValue, Deserialize, FromJson, JSONDeserializer};
use koi::kserde::json_serialize::{JSONSerializer, Serialize, ToJson};

#[test]
fn parse_string_decodes_escapes() {
    let mut d = JSONDeserializer::new("\"a\\nb\\t\\\"c\\\\ \\/\"");
    assert_eq!(d.parse_string().unwrap(), "a\nb\t\"c\\ /");
}

#[test]
fn parse_string_reads_unicode_escapes() {
    let mut d = JSONDeserializer::new("\"\\u0041\\u00e9\\ud83d\\ude00\"");
    assert_eq!(d.parse_string().unwrap(), "A\u{e9}\u{1F600}");
}

#[test]
fn parse_string_accepts_a_plus_sign_before_three_hex_digits() {
    let mut d = JSONDeserializer::new("\"\\u+041\"");
    assert_eq!(d.parse_string().unwrap(), "A");
}

#[test]
fn parse_string_refuses_bad_input() {
    assert!(JSONDeserializer::new("abc").parse_string().is_none());
    assert!(JSONDeserializer::new("\"abc").parse_string().is_none());
    assert!(JSONDeserializer::new("\"a\\qb\"").parse_string().is_none());
    assert!(JSONDeserializer::new("\"\\u12\"").parse_string().is_none());
    assert!(JSONDeserializer::new("\"\\udc00\"").parse_string().is_none());
    assert!(JSONDeserializer::new("\"\\ud83d\\u0041\"").parse_string().is_none());
    assert!(JSONDeserializer::new("").parse_string().is_none());
}

#[test]
fn parse_string_keeps_other_characters() {
    let mut d = JSONDeserializer::new("\"h\u{e9}llo w\u{f6}rld\" tail");
    assert_eq!(d.parse_string().unwrap(), "h\u{e9}llo w\u{f6}rld");
}

#[test]
fn string_skips_white_space_first() {
    let mut d = JSONDeserializer::new(" \n\t\u{3000}\"x\"");
    assert_eq!(d.string().unwrap(), "x");
    let mut d = JSONDeserializer::new("   \"y\"");
    d.skip_whitespace();
    assert_eq!(d.parse_string().unwrap(), "y");
}

#[test]
fn bool_reads_the_first_letter_and_four_or_five_more() {
    assert_eq!(bool::from_json("true "), Some(true));
    assert_eq!(bool::from_json("false,"), Some(false));
    assert_eq!(bool::from_json("true"), None);
    assert_eq!(bool::from_json("false"), None);
    assert_eq!(bool::from_json("x"), None);
    assert_eq!(bool::from_json("  tXXXX"), Some(true));
}

#[test]
fn from_json_reads_a_string() {
    assert_eq!(String::from_json("  \"koi\""), Some("koi".to_string()));
    assert_eq!(String::from_json("koi"), None);
}

#[test]
fn parse_number_gives_the_digits() {
    let n = JSONDeserializer::new("-12.50e+007,").parse_number().unwrap();
    assert!(n.negative);
    assert_eq!(n.integer_digits, vec!['1', '2']);
    assert_eq!(n.fraction_digits, vec!['5', '0']);
    assert!(!n.exponent_negative);
    assert_eq!(n.exponent_digits, vec!['7']);

    let n = JSONDeserializer::new("0123").parse_number().unwrap();
    assert_eq!(n.integer_digits, vec!['0']);
    assert!(n.fraction_digits.is_empty());

    let n = JSONDeserializer::new("3E-2").parse_number().unwrap();
    assert!(n.exponent_negative);
    assert_eq!(n.exponent_digits, vec!['2']);
}

#[test]
fn parse_number_reads_an_exponent_of_zeros() {
    let n = JSONDeserializer::new("1e0").parse_number().unwrap();
    assert_eq!(n.integer_digits, vec!['1']);
    assert!(n.exponent_digits.is_empty());
    let mut d = JSONDeserializer::new("2E-00,");
    let n = d.parse_number().unwrap();
    assert!(n.exponent_negative);
    assert!(n.exponent_digits.is_empty());
    assert!(matches!(d.any(), None));
}

#[test]
fn parse_number_refuses_a_missing_exponent() {
    assert!(JSONDeserializer::new("1e").parse_number().is_none());
    assert!(JSONDeserializer::new("1e+").parse_number().is_none());
    assert!(JSONDeserializer::new("1ex").parse_number().is_none());
    assert!(JSONDeserializer::new("-").parse_number().is_none());
    assert!(JSONDeserializer::new("x").parse_number().is_none());
}

#[test]
fn any_tells_the_kinds_apart() {
    let mut d = JSONDeserializer::new(" {");
    assert!(matches!(d.any(), Some(AnyValue::Object)));
    let mut d = JSONDeserializer::new("[");
    assert!(matches!(d.any(), Some(AnyValue::Array)));
    let mut d = JSONDeserializer::new("\"s\"");
    assert_eq!(d.any().unwrap().string(), Some("s".to_string()));
    let mut d = JSONDeserializer::new("true");
    assert!(matches!(d.any(), Some(AnyValue::Bool(true))));
    let mut d = JSONDeserializer::new("false");
    assert!(matches!(d.any(), Some(AnyValue::Bool(false))));
    let mut d = JSONDeserializer::new("null");
    assert!(matches!(d.any(), Some(AnyValue::Null)));
    let mut d = JSONDeserializer::new("-4");
    let n = d.any().unwrap().number().unwrap();
    assert!(n.negative);
    assert_eq!(n.integer_digits, vec!['4']);
    let mut d = JSONDeserializer::new("nul");
    assert!(d.any().is_none());
    let mut d = JSONDeserializer::new("?");
    assert!(d.any().is_none());
}

#[test]
fn objects_and_arrays_are_walked_item_by_item() {
    let mut d = JSONDeserializer::new("{ \"name\" : \"koi\", \"tags\": [\"a\", \"b\"] }");
    assert!(d.begin_object());
    assert_eq!(d.has_property(), Some("name".to_string()));
    assert_eq!(d.string(), Some("koi".to_string()));
    assert_eq!(d.has_property(), Some("tags".to_string()));
    assert!(d.begin_array());
    assert!(d.has_array_value());
    assert_eq!(d.string(), Some("a".to_string()));
    assert!(d.has_array_value());
    assert_eq!(d.string(), Some("b".to_string()));
    assert!(!d.has_array_value());
    assert_eq!(d.has_property(), None);
}

#[test]
fn begin_object_needs_a_brace() {
    let mut d = JSONDeserializer::new("[1]");
    assert!(!d.begin_object());
    let mut d = JSONDeserializer::new("");
    assert!(!d.begin_object());
    assert!(!d.begin_array());
}

#[test]
fn nesting_stops_at_the_limit() {
    let mut text = String::new();
    for _ in 0..1025 {
        text.push('[');
    }
    let mut d = JSONDeserializer::new(&text);
    for _ in 0..1024 {
        assert!(d.begin_array());
    }
    assert!(!d.begin_array());
}

#[test]
fn deserialize_trait_reads_values() {
    let mut d = JSONDeserializer::new(" \"v\"");
    assert_eq!(String::deserialize(&mut d), Some("v".to_string()));
    let mut d = JSONDeserializer::new("true,");
    assert_eq!(bool::deserialize(&mut d), Some(true));
}

#[test]
fn serializer_writes_scalars() {
    let mut s = JSONSerializer::new();
    s.i64(0);
    s.i64(-5);
    s.i64(1234567890);
    s.i64(i64::MIN);
    s.bool(true);
    s.bool(false);
    s.null();
    s.string("a\"b");
    assert_eq!(s.done(), "0-51234567890-9223372036854775808truefalsenull\"a\"b\"");
}

#[test]
fn serializer_writes_arrays() {
    assert_eq!(vec![1i64, 2, 3].to_json(), "[1, 2, 3]");
    assert_eq!(Vec::<i64>::new().to_json(), "[]");
    assert_eq!(vec![vec![true], vec![]].to_json(), "[[true], []]");
    assert_eq!(vec!["x".to_string()].to_json(), "[\"x\"]");
}

#[test]
fn serializer_writes_objects() {
    let mut s = JSONSerializer::new();
    s.begin_object();
    s.property("name", &"Odysseus".to_string());
    s.property("age", &43i64);
    s.end_object();
    assert_eq!(s.done(), "{\n    \"name\": \"Odysseus\", \n    \"age\": 43\n}");

    let mut s = JSONSerializer::new();
    s.begin_object();
    s.end_object();
    assert_eq!(s.done(), "{\n}");
}

#[test]
fn serializer_value_and_serialize() {
    let mut s = JSONSerializer::new();
    s.begin_array();
    s.value(&7i32);
    s.end_array();
    s.serialize(&false);
    assert_eq!(s.done(), "[7]false");
    let mut s = JSONSerializer::new();
    true.serialize(&mut s);
    assert_eq!(s.done(), "true");
}

#[test]
fn string_round_trip() {
    let fish = "koi fish \u{1F41F}".to_string();
    let text = fish.to_json();
    assert_eq!(text, "\"koi fish \u{1F41F}\"");
    assert_eq!(String::from_json(&text), Some(fish));
}

#[test]
fn number_text_is_written_as_it_is() {
    let mut s = JSONSerializer::new();
    s.begin_array();
    s.number_text("1.5");
    s.end_array();
    assert_eq!(s.done(), "[1.5]");
}

#[test]
fn written_whole_numbers_read_back_digit_for_digit() {
    for n in [0i64, 7, -7, 120, -9223372036854775808, 9223372036854775807] {
        let text = n.to_json();
        let number = JSONDeserializer::new(&text).parse_number().unwrap();
        assert_eq!(number.negative, n < 0);
        let digits: String = number.integer_digits.iter().collect();
        assert_eq!(digits, n.unsigned_abs().to_string());
        assert!(number.fraction_digits.is_empty());
        assert!(number.exponent_digits.is_empty());
    }
}

#[test]
fn serializer_writes_options_sizes_and_str() {
    assert_eq!(Some(5i64).to_json(), "5");
    assert_eq!(None::<i64>.to_json(), "null");
    assert_eq!(vec![Some(true), None].to_json(), "[true, null]");
    assert_eq!(7usize.to_json(), "7");
    assert_eq!("hi".to_json(), "\"hi\"");
}
