use koi::kgltf::schema_reader::{parse_schema, EnumValue, Schema, SchemaType};
use koi::kserde::thing::Thing;

fn json(text: &str) -> Thing {
    Thing::from_json(text).unwrap()
}

fn read(text: &str, refs: Vec<(&str, &str)>) -> Option<Schema> {
    let refs: Vec<(String, Thing)> = refs.into_iter().map(|(n, t)| (n.to_string(), json(t))).collect();
    parse_schema(&json(text), &refs)
}

#[test]
fn object_schema_with_required_properties() {
    let s = read(
        "{\"title\": \"asset\", \"description\": \"Metadata.\", \"type\": \"object\", \
         \"properties\": {\"version\": {\"type\": \"string\"}, \"minVersion\": {\"type\": \"string\", \"default\": \"2.0\"}}, \
         \"required\": [\"version\"]}",
        vec![],
    )
    .unwrap();
    assert_eq!(s.title.as_deref(), Some("asset"));
    assert_eq!(s.description.as_deref(), Some("Metadata."));
    match &s.schema_type {
        SchemaType::Object { properties, additional_properties, .. } => {
            assert_eq!(properties.len(), 2);
            assert_eq!(properties[0].name, "version");
            assert!(properties[0].required);
            assert!(matches!(properties[0].schema.schema_type, SchemaType::String));
            assert_eq!(properties[1].name, "minVersion");
            assert!(!properties[1].required);
            assert_eq!(properties[1].schema.default.as_ref().unwrap().string().unwrap(), "2.0");
            assert!(additional_properties.is_empty());
        }
        _ => panic!("an object schema was expected"),
    }
}

#[test]
fn references_are_read_from_the_table() {
    let s = read(
        "{\"type\": \"object\", \"properties\": {\"count\": {\"$ref\": \"count.schema.json\"}}}",
        vec![("count.schema.json", "{\"type\": \"integer\", \"minimum\": 0, \"maximum\": 10}")],
    )
    .unwrap();
    match &s.schema_type {
        SchemaType::Object { properties, .. } => match &properties[0].schema.schema_type {
            SchemaType::Integer(limits) => {
                assert_eq!(limits.minimum.as_ref().unwrap().integer_digits, vec!['0']);
                assert_eq!(limits.maximum.as_ref().unwrap().integer_digits, vec!['1', '0']);
                assert!(limits.multiple_of.is_none());
            }
            _ => panic!("an integer schema was expected"),
        },
        _ => panic!("an object schema was expected"),
    }
}

#[test]
fn missing_or_circular_references_are_refused() {
    assert!(read("{\"$ref\": \"nowhere.json\"}", vec![]).is_none());
    assert!(read("{\"$ref\": \"a.json\"}", vec![("a.json", "{\"$ref\": \"a.json\"}")]).is_none());
    assert!(read(
        "{\"allOf\": [{\"$ref\": \"a.json\"}, {\"$ref\": \"a.json\"}]}",
        vec![("a.json", "{\"title\": \"A\"}")]
    )
    .is_some());
}

#[test]
fn clashing_or_unknown_types_are_refused() {
    assert!(read("{\"type\": \"string\", \"allOf\": [{\"type\": \"integer\"}]}", vec![]).is_none());
    assert!(read("{\"type\": \"tuple\"}", vec![]).is_none());
    assert!(read("{\"type\": 3}", vec![]).is_none());
    assert!(read("[]", vec![]).is_none());
    assert!(read("{\"title\": 1}", vec![]).is_none());
}

#[test]
fn all_of_extends_and_the_first_title_stays() {
    let s = read(
        "{\"title\": \"outer\", \"allOf\": [{\"title\": \"inner\", \"type\": \"number\", \"minimum\": 1.5}]}",
        vec![],
    )
    .unwrap();
    assert_eq!(s.title.as_deref(), Some("outer"));
    match &s.schema_type {
        SchemaType::Number(limits) => {
            assert_eq!(limits.minimum.as_ref().unwrap().fraction_digits, vec!['5']);
        }
        _ => panic!("a number schema was expected"),
    }
}

#[test]
fn enums_arrays_and_alternatives() {
    let s = read("{\"enum\": [\"LINEAR\", 9729]}", vec![]).unwrap();
    assert!(matches!(s.schema_type, SchemaType::Enum));
    assert_eq!(s.enum_values.len(), 2);
    assert!(matches!(&s.enum_values[0], EnumValue::String(x) if x == "LINEAR"));
    assert!(matches!(&s.enum_values[1], EnumValue::Number(n) if n.integer_digits == vec!['9', '7', '2', '9']));

    let s = read("{\"type\": \"array\", \"items\": {\"type\": \"boolean\"}, \"minItems\": 1}", vec![]).unwrap();
    match &s.schema_type {
        SchemaType::Array { min_items, max_items, items } => {
            assert_eq!(min_items.as_ref().unwrap().integer_digits, vec!['1']);
            assert!(max_items.is_none());
            assert!(matches!(items.as_ref().unwrap().schema_type, SchemaType::Boolean));
        }
        _ => panic!("an array schema was expected"),
    }
    assert!(read("{\"type\": \"array\"}", vec![]).is_none());

    let s = read("{\"anyOf\": [{\"type\": \"string\"}, {\"enum\": [1]}], \"oneOf\": [{}]}", vec![]).unwrap();
    assert_eq!(s.any_of.len(), 2);
    assert_eq!(s.one_of.len(), 1);
}

#[test]
fn not_marks_properties_incompatible() {
    let s = read(
        "{\"type\": \"object\", \"properties\": {\"a\": {}, \"b\": {}, \"c\": {}}, \
         \"not\": {\"required\": [\"a\", \"b\"], \"anyOf\": [{\"required\": [\"b\", \"c\"]}]}}",
        vec![],
    )
    .unwrap();
    match &s.schema_type {
        SchemaType::Object { properties, .. } => {
            assert_eq!(properties[0].incompatible_with, vec!["b".to_string()]);
            assert_eq!(properties[1].incompatible_with, vec!["a".to_string(), "c".to_string()]);
            assert_eq!(properties[2].incompatible_with, vec!["b".to_string()]);
        }
        _ => panic!("an object schema was expected"),
    }
    assert!(read(
        "{\"type\": \"object\", \"properties\": {\"a\": {}}, \"not\": {\"required\": [\"a\", \"z\"]}}",
        vec![]
    )
    .is_none());
}

#[test]
fn properties_follow_their_read_index() {
    let s = read("{\"type\": \"object\", \"properties\": {\"a\": {}, \"b\": {}, \"a\": {\"type\": \"string\"}}}", vec![]).unwrap();
    match &s.schema_type {
        SchemaType::Object { properties, .. } => {
            assert_eq!(properties.len(), 2);
            assert_eq!(properties[0].name, "b");
            assert_eq!(properties[1].name, "a");
            assert!(matches!(properties[1].schema.schema_type, SchemaType::String));
        }
        _ => panic!("an object schema was expected"),
    }
}
