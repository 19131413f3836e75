use koi::kserde::json_deserialize::{Deserialize, JSONDeserializer};
use koi::kserde::json_serialize::JSONSerializer;
use koi::kserde::thing::Thing;

#[test]
fn thing_reads_a_string() {
    let t = Thing::from_json("  \"hi\\nthere\" ").unwrap();
    assert_eq!(t.string().unwrap(), "hi\nthere");
    assert!(t.bool().is_none());
    assert!(t.number().is_none());
    assert!(t.object().is_none());
    assert!(t.array().is_none());
}

#[test]
fn thing_reads_booleans_and_null() {
    assert_eq!(Thing::from_json("true").unwrap().bool(), Some(true));
    assert_eq!(Thing::from_json("false").unwrap().bool(), Some(false));
    assert!(matches!(Thing::from_json("null").unwrap(), Thing::Null));
}

#[test]
fn thing_keeps_the_parts_of_a_number() {
    let t = Thing::from_json("-12.5e+3").unwrap();
    let n = t.number().unwrap();
    assert!(n.negative);
    assert_eq!(n.integer_digits, vec!['1', '2']);
    assert_eq!(n.fraction_digits, vec!['5']);
    assert!(!n.exponent_negative);
    assert_eq!(n.exponent_digits, vec!['3']);
    assert!(t.string().is_none());
}

#[test]
fn thing_reads_an_array_in_order() {
    let t = Thing::from_json("[1, \"two\", [true], null]").unwrap();
    let a = t.array().unwrap();
    assert_eq!(a.len(), 4);
    assert_eq!(a[0].number().unwrap().integer_digits, vec!['1']);
    assert_eq!(a[1].string().unwrap(), "two");
    assert_eq!(a[2].array().unwrap()[0].bool(), Some(true));
    assert!(matches!(a[3], Thing::Null));
}

#[test]
fn thing_reads_an_empty_object_and_array() {
    assert_eq!(Thing::from_json("{}").unwrap().object().unwrap().len(), 0);
    assert_eq!(Thing::from_json("[ ]").unwrap().array().unwrap().len(), 0);
}

#[test]
fn thing_object_properties_carry_their_index() {
    let t = Thing::from_json("{\"x\": 1, \"y\": {\"z\": false}}").unwrap();
    let o = t.object().unwrap();
    assert_eq!(o.len(), 2);
    assert_eq!(o[0].0, "x");
    assert_eq!(o[0].1.index, 0);
    assert_eq!(o[1].0, "y");
    assert_eq!(o[1].1.index, 1);
    let inner = o[1].1.item.object().unwrap();
    assert_eq!(inner[0].0, "z");
    assert_eq!(inner[0].1.item.bool(), Some(false));
}

#[test]
fn thing_repeated_name_keeps_one_entry_with_the_last_value() {
    let t = Thing::from_json("{\"a\": 1, \"b\": 2, \"a\": \"again\"}").unwrap();
    let o = t.object().unwrap();
    assert_eq!(o.len(), 2);
    assert_eq!(o[0].0, "a");
    assert_eq!(o[0].1.item.string().unwrap(), "again");
    assert_eq!(o[0].1.index, 2);
    assert_eq!(o[1].0, "b");
    assert_eq!(o[1].1.index, 1);
}

#[test]
fn thing_refuses_bad_json() {
    assert!(Thing::from_json("").is_none());
    assert!(Thing::from_json("[1, 2").is_none());
    assert!(Thing::from_json("{\"a\": }").is_none());
    assert!(Thing::from_json("nul").is_none());
}

#[test]
fn thing_object_ends_where_a_colon_is_missing() {
    let t = Thing::from_json("{\"a\" 1}").unwrap();
    assert_eq!(t.object().unwrap().len(), 0);
}

#[test]
fn thing_to_owned_is_an_equal_copy() {
    let t = Thing::from_json("{\"k\": [\"v\", 3.25, null], \"b\": true}").unwrap();
    let c = t.to_owned();
    let o = c.object().unwrap();
    assert_eq!(o.len(), 2);
    assert_eq!(o[0].0, "k");
    let a = o[0].1.item.array().unwrap();
    assert_eq!(a[0].string().unwrap(), "v");
    assert_eq!(a[1].number().unwrap().fraction_digits, vec!['2', '5']);
    assert!(matches!(a[2], Thing::Null));
    assert_eq!(o[1].1.item.bool(), Some(true));
    assert_eq!(o[1].1.index, 1);
}

#[test]
fn thing_deserializes_through_the_reader() {
    let mut d = JSONDeserializer::new("[{\"a\": null}]");
    let t = Thing::deserialize(&mut d).unwrap();
    let a = t.array().unwrap();
    assert!(matches!(a[0].object().unwrap()[0].1.item, Thing::Null));
}

fn written(t: &Thing) -> String {
    let mut s = JSONSerializer::new();
    t.serialize(&mut s);
    s.done()
}

#[test]
fn thing_writes_scalars() {
    assert_eq!(written(&Thing::from_json("\"hey\"").unwrap()), "\"hey\"");
    assert_eq!(written(&Thing::from_json("false").unwrap()), "false");
    assert_eq!(written(&Thing::from_json("null").unwrap()), "null");
    assert_eq!(written(&Thing::from_json("-0.5e-3").unwrap()), "-0.5e-3");
    assert_eq!(written(&Thing::from_json("1E+2").unwrap()), "1e2");
}

#[test]
fn thing_writes_arrays_and_objects() {
    assert_eq!(written(&Thing::from_json("[1, [], [true, null]]").unwrap()), "[1, [], [true, null]]");
    assert_eq!(
        written(&Thing::from_json("{\"a\": [1, true], \"b\": {}}").unwrap()),
        "{\n    \"a\": [1, true], \n    \"b\": {\n    }\n}"
    );
    assert_eq!(written(&Thing::from_json("{}").unwrap()), "{\n}");
}

#[test]
fn thing_written_text_reads_back() {
    let text = written(&Thing::from_json("{\"k\": [\"v\", 2], \"n\": null}").unwrap());
    let again = Thing::from_json(&text).unwrap();
    assert_eq!(written(&again), text);
    let o = again.object().unwrap();
    assert_eq!(o[0].0, "k");
    assert_eq!(o[1].0, "n");
}

#[test]
fn thing_array_of_plain_scalars_reads_back_as_itself() {
    let items = vec![
        Thing::String("a b".to_string()),
        Thing::Bool(true),
        Thing::Null,
        Thing::Bool(false),
        Thing::String(String::new()),
    ];
    let t = Thing::Array(items);
    let text = written(&t);
    assert_eq!(text, "[\"a b\", true, null, false, \"\"]");
    let again = Thing::from_json(&text).unwrap();
    let a = again.array().unwrap();
    assert_eq!(a.len(), 5);
    assert_eq!(a[0].string().unwrap(), "a b");
    assert_eq!(a[1].bool(), Some(true));
    assert!(matches!(a[2], Thing::Null));
    assert_eq!(a[3].bool(), Some(false));
    assert_eq!(a[4].string().unwrap(), "");
    assert_eq!(written(&again), text);
    let empty = Thing::Array(Vec::new());
    assert_eq!(written(&empty), "[]");
    assert_eq!(Thing::from_json("[]").unwrap().array().unwrap().len(), 0);
}

#[test]
fn thing_array_of_numbers_reads_back_as_itself() {
    let t = Thing::from_json("[1, -0.25, 3e-2, 0, 10.5e7]").unwrap();
    let text = written(&t);
    assert_eq!(text, "[1, -0.25, 3e-2, 0, 10.5e7]");
    let again = Thing::from_json(&text).unwrap();
    let a = again.array().unwrap();
    assert_eq!(a.len(), 5);
    let n = a[1].number().unwrap();
    assert!(n.negative);
    assert_eq!(n.integer_digits, vec!['0']);
    assert_eq!(n.fraction_digits, vec!['2', '5']);
    let e = a[2].number().unwrap();
    assert!(e.exponent_negative);
    assert_eq!(e.exponent_digits, vec!['2']);
    assert_eq!(written(&again), text);
}

#[test]
fn thing_object_of_plain_values_reads_back_as_itself() {
    let t = Thing::from_json("{\"a\": 1, \"b\": \"x\", \"c\": null, \"d\": false}").unwrap();
    let text = written(&t);
    assert_eq!(text, "{\n    \"a\": 1, \n    \"b\": \"x\", \n    \"c\": null, \n    \"d\": false\n}");
    let again = Thing::from_json(&text).unwrap();
    let o = again.object().unwrap();
    assert_eq!(o.len(), 4);
    assert_eq!(o[0].0, "a");
    assert_eq!(o[0].1.index, 0);
    assert_eq!(o[1].0, "b");
    assert_eq!(o[1].1.item.string().unwrap(), "x");
    assert_eq!(o[2].1.index, 2);
    assert!(matches!(o[2].1.item, Thing::Null));
    assert_eq!(o[3].1.item.bool(), Some(false));
    assert_eq!(written(&again), text);
}
