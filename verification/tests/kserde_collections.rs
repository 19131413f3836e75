use std::collections::HashMap;

use koi::kserde::json_deserialize::{Deserialize, JSONDeserializer};
use koi::kserde::json_serialize::{JSONSerializer, Serialize};

fn read<T: Deserialize>(text: &str) -> Option<T> {
    let mut d = JSONDeserializer::new(text);
    T::deserialize(&mut d)
}

#[test]
fn vec_reads_items_in_order() {
    // A keyword takes the character after it along, so each one is
    // followed by a space here.
    assert_eq!(read::<Vec<bool>>(" [true ,false ,true ]"), Some(vec![true, false, true]));
    assert_eq!(read::<Vec<bool>>("[true, false, true]"), None);
    assert_eq!(read::<Vec<String>>("[\"a\", \"b\"]"), Some(vec!["a".to_string(), "b".to_string()]));
    assert_eq!(read::<Vec<Vec<bool>>>("[[true ], []]"), Some(vec![vec![true], vec![]]));
}

#[test]
fn vec_reads_an_empty_array() {
    assert_eq!(read::<Vec<bool>>("[ ]"), Some(vec![]));
}

#[test]
fn vec_refuses_what_is_no_array() {
    assert_eq!(read::<Vec<bool>>("true"), None);
    assert_eq!(read::<Vec<bool>>(""), None);
    assert_eq!(read::<Vec<bool>>("[true,"), None);
    assert_eq!(read::<Vec<bool>>("[true, 1]"), None);
}

#[test]
fn array_reads_exactly_its_length() {
    assert_eq!(read::<[bool; 2]>("[true ,false ]"), Some([true, false]));
    assert_eq!(read::<[bool; 2]>("[true ]"), None);
    assert_eq!(read::<[bool; 2]>("[true ,false ,true ]"), None);
    assert_eq!(read::<[bool; 0]>("[]"), Some([]));
    assert_eq!(read::<[bool; 0]>("[true]"), None);
    assert_eq!(read::<[bool; 1]>("false"), None);
}

#[test]
fn map_reads_properties_by_name() {
    let m = read::<HashMap<String, bool>>("{\"a\": true, \"b\": false, \"a\": false}").unwrap();
    assert_eq!(m.len(), 2);
    assert_eq!(m.get("a"), Some(&false));
    assert_eq!(m.get("b"), Some(&false));
    assert_eq!(read::<HashMap<String, bool>>("{ }").unwrap().len(), 0);
    assert!(read::<HashMap<String, bool>>("[]").is_none());
    assert!(read::<HashMap<String, bool>>("{\"a\": 3}").is_none());
}

#[test]
fn tuples_read_named_properties() {
    assert_eq!(read::<(bool,)>("{\"a\": true}"), Some((true,)));
    assert_eq!(read::<(bool,)>("{\"b\": true}"), None);
    assert_eq!(read::<(bool, String)>("{\"a\": false, \"b\": \"x\"}"), Some((false, "x".to_string())));
    assert_eq!(read::<(bool, String)>("{\"a\": false, \"c\": \"x\"}"), None);
    assert_eq!(
        read::<(bool, bool, bool)>("{\"a\": true, \"b\": false, \"c\": true}"),
        Some((true, false, true))
    );
    assert_eq!(read::<(bool, bool, bool)>("{\"a\": true, \"b\": false}"), None);
}

#[test]
fn arrays_and_slices_are_written_like_vecs() {
    let mut s = JSONSerializer::new();
    [1i64, 2, 3].serialize(&mut s);
    assert_eq!(s.done(), "[1, 2, 3]");
    let mut s = JSONSerializer::new();
    let items: &[bool] = &[true, false];
    items.serialize(&mut s);
    assert_eq!(s.done(), "[true, false]");
    let mut s = JSONSerializer::new();
    let empty: [i64; 0] = [];
    empty.serialize(&mut s);
    assert_eq!(s.done(), "[]");
}
