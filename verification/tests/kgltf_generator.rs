use koi::kgltf::rust_types::{JsonEnumValue, RustGenerator, RustType};
use koi::kgltf::schema_reader::{parse_schema, Schema};
use koi::kserde::thing::Thing;

fn read(text: &str) -> Schema {
    parse_schema(&Thing::from_json(text).unwrap(), &Vec::new()).unwrap()
}

#[test]
fn plain_schemas_become_plain_types() {
    let mut g = RustGenerator::new();
    assert!(matches!(g.rust_type_from_schema("", &read("{\"type\": \"string\"}")), Some(RustType::String)));
    assert!(matches!(g.rust_type_from_schema("", &read("{\"type\": \"integer\"}")), Some(RustType::USIZE)));
    assert!(matches!(g.rust_type_from_schema("", &read("{\"type\": \"number\"}")), Some(RustType::F32)));
    assert!(matches!(g.rust_type_from_schema("", &read("{\"type\": \"boolean\"}")), Some(RustType::Boolean)));
    assert!(matches!(g.rust_type_from_schema("", &read("{}")), Some(RustType::KSerdeOwnedThing)));
    assert!(g.rust_types.is_empty());
}

#[test]
fn arrays_of_fixed_length_become_arrays() {
    let mut g = RustGenerator::new();
    let fixed = g
        .rust_type_from_schema("", &read("{\"type\": \"array\", \"items\": {\"type\": \"number\"}, \"minItems\": 3, \"maxItems\": 3}"))
        .unwrap();
    assert_eq!(fixed.rust_type_name(), "[f32; 3]");
    let open = g
        .rust_type_from_schema("", &read("{\"type\": \"array\", \"items\": {\"type\": \"integer\"}, \"minItems\": 1}"))
        .unwrap();
    assert_eq!(open.rust_type_name(), "Vec<usize>");
    let ranged = g
        .rust_type_from_schema("", &read("{\"type\": \"array\", \"items\": {\"type\": \"string\"}, \"minItems\": 1, \"maxItems\": 4}"))
        .unwrap();
    assert_eq!(ranged.rust_type_name(), "Vec<String>");
}

#[test]
fn maps_of_extra_properties() {
    let mut g = RustGenerator::new();
    let t = g
        .rust_type_from_schema("", &read("{\"type\": \"object\", \"additionalProperties\": {\"type\": \"integer\"}}"))
        .unwrap();
    assert_eq!(t.rust_type_name(), "HashMap<String, usize>");
    let u = g
        .rust_type_from_schema("", &read("{\"type\": \"object\", \"additionalProperties\": {\"type\": \"object\"}}"))
        .unwrap();
    assert_eq!(u.rust_type_name(), "HashMap<String, ThingOwned>");
    assert!(g.rust_type_from_schema("", &read("{\"type\": \"object\"}")).is_none());
}

#[test]
fn titled_objects_become_structs_kept_once() {
    let schema = read(
        "{\"title\": \"accessor sparse\", \"description\": \"Sparse storage.\", \"type\": \"object\", \
         \"properties\": {\"count\": {\"type\": \"integer\", \"description\": \"The count.\"}, \
         \"byteOffset\": {\"type\": \"integer\", \"default\": 0}, \"type\": {\"type\": \"string\"}}, \
         \"required\": [\"count\"]}",
    );
    let mut g = RustGenerator::new();
    let t = g.rust_type_from_schema("", &schema).unwrap();
    match &t {
        RustType::Struct(s) => {
            assert_eq!(s.name, "AccessorSparse");
            assert_eq!(s.json_name.as_deref(), Some("accessor sparse"));
            assert_eq!(s.description, "Sparse storage.");
            assert_eq!(s.properties.len(), 3);
            assert_eq!(s.properties[0].name, "count");
            assert!(!s.properties[0].optional);
            assert_eq!(s.properties[0].property_type.rust_type_name(), "usize");
            assert_eq!(s.properties[1].name, "byte_offset");
            assert_eq!(s.properties[1].json_name, "byteOffset");
            assert!(s.properties[1].optional);
            assert_eq!(s.properties[1].property_type.rust_type_name(), "usize");
            assert_eq!(s.properties[2].name, "type_");
            assert_eq!(s.properties[2].property_type.rust_type_name(), "Option<String>");
        }
        _ => panic!("a struct was expected"),
    }
    assert_eq!(g.rust_types.len(), 1);
    assert_eq!(g.rust_types[0].0, "AccessorSparse");
    g.rust_type_from_schema("", &schema).unwrap();
    assert_eq!(g.rust_types.len(), 1);
}

#[test]
fn alternatives_become_enums_named_after_their_property() {
    let schema = read(
        "{\"title\": \"primitive\", \"description\": \"Geometry.\", \"type\": \"object\", \
         \"properties\": {\"mode\": {\"description\": \"The topology.\", \"anyOf\": [\
         {\"enum\": [0], \"description\": \"POINTS\"}, {\"enum\": [4], \"description\": \"TRIANGLES\"}, \
         {\"type\": \"integer\"}]}}, \"required\": [\"mode\"]}",
    );
    let mut g = RustGenerator::new();
    g.rust_type_from_schema("", &schema).unwrap();
    assert_eq!(g.rust_types.len(), 2);
    assert_eq!(g.rust_types[0].0, "PrimitiveMode");
    match &g.rust_types[0].1 {
        RustType::Enum(e) => {
            assert_eq!(e.description, "The topology.");
            assert_eq!(e.members.len(), 2);
            assert_eq!(e.members[0].name, "Points");
            assert_eq!(e.members[0].value, Some(0));
            assert_eq!(e.members[1].name, "Triangles");
            assert_eq!(e.members[1].value, Some(4));
            assert!(matches!(e.members[1].json_value, JsonEnumValue::Integer(4)));
        }
        _ => panic!("an enum was expected"),
    }
    assert_eq!(g.rust_types[1].0, "Primitive");
}

#[test]
fn generated_code_of_a_struct() {
    let schema = read(
        "{\"title\": \"asset\", \"description\": \"Metadata.\", \"type\": \"object\", \
         \"properties\": {\"version\": {\"type\": \"string\", \"description\": \"The version.\"}, \
         \"alphaCutoff\": {\"type\": \"number\", \"default\": 0.5}}, \"required\": [\"version\"]}",
    );
    let mut g = RustGenerator::new();
    let text = g.generate(&schema).unwrap();
    let expected = [
        "use kserde::*;\n\n",
        "use std::collections::HashMap;\n\n",
        "/// Metadata.\n",
        "#[derive(Debug, Clone)]\npub struct Asset {\n",
        "    /// The version.\n",
        "    pub version: String,\n",
        "    pub alpha_cutoff: f32,\n",
        "}\n\n",
        "impl<S: Serializer> Serialize<S> for Asset {\n",
        "    fn serialize(&self, serializer: &mut S) {\n",
        "        serializer.begin_object();\n",
        "        serializer.property(\"version\", &self.version);\n",
        "        serializer.property(\"alphaCutoff\", &self.alpha_cutoff);\n",
        "        serializer.end_object();\n",
        "    }\n",
        "}\n",
        "impl<'a, D: Deserializer<'a>> Deserialize<'a, D> for Asset {\n",
        "    fn deserialize(deserializer: &mut D) -> Option<Self> {\n",
        "        deserializer.begin_object().then(|| {})?;\n",
        "        let mut version = None;\n",
        "        let mut alpha_cutoff = None;\n",
        "\n        while let Some(property) = deserializer.has_property() {\n",
        "             match &*property {\n",
        "                \"version\" => version = Some(<String>::deserialize(deserializer)?),\n",
        "                \"alphaCutoff\" => alpha_cutoff = Some(<f32>::deserialize(deserializer)?),\n",
        "                _ => {}\n",
        "            }\n",
        "        }\n\n",
        "        Some(Self {\n",
        "            version: version?,\n",
        "            alpha_cutoff: alpha_cutoff.map_or_else(|| 0.5f32, |m| m),\n",
        "        })\n",
        "    }\n",
        "}\n\n",
    ]
    .concat();
    assert_eq!(text, expected);
}

#[test]
fn generated_code_of_an_enum() {
    let schema = read(
        "{\"title\": \"sampler\", \"description\": \"A sampler.\", \"type\": \"object\", \
         \"properties\": {\"filter\": {\"description\": \"The filter.\", \"anyOf\": [\
         {\"enum\": [9728], \"description\": \"NEAREST\"}, {\"type\": \"integer\"}]}}}",
    );
    let mut g = RustGenerator::new();
    let text = g.generate(&schema).unwrap();
    let enum_code = [
        "/// The filter.\n",
        "#[derive(Debug, Clone)]pub enum SamplerFilter {\n",
        "    Nearest = 9728,\n",
        "}\n\n",
        "impl<S: Serializer> Serialize<S> for SamplerFilter {\n",
        "    fn serialize(&self, serializer: &mut S) {\n",
        "        match self {\n",
        "            Self::Nearest => 9728.serialize(serializer),\n",
        "        }\n",
        "    }\n",
        "}\n",
        "impl<'a, D: Deserializer<'a>> Deserialize<'a, D> for SamplerFilter {\n",
        "    fn deserialize(deserializer: &mut D) -> Option<Self> {\n",
        "        let value = deserializer.i64()?;\n",
        "        Some(match value {\n",
        "            9728 => Self::Nearest,\n",
        "        _ => None?\n",
        "        })\n",
        "    }\n",
        "}\n\n",
    ]
    .concat();
    assert!(text.starts_with("use kserde::*;\n\nuse std::collections::HashMap;\n\n/// A sampler.\n"));
    assert!(text.ends_with(&enum_code));
    assert!(text.contains("            filter: filter,\n"));
    assert!(text.contains("        if let Some(v) = self.filter.as_ref() {\n") == false);
}

#[test]
fn text_defaults_name_their_enum_member() {
    let schema = read(
        "{\"title\": \"material\", \"description\": \"A material.\", \"type\": \"object\", \
         \"properties\": {\"alphaMode\": {\"description\": \"The mode.\", \"default\": \"OPAQUE\", \"anyOf\": [\
         {\"enum\": [\"OPAQUE\"], \"description\": \"Opaque.\"}, {\"enum\": [\"BLEND\"]}, {\"type\": \"string\"}]}}}",
    );
    let mut g = RustGenerator::new();
    let text = g.generate(&schema).unwrap();
    assert!(text.contains("            alpha_mode: alpha_mode.map_or_else(|| MaterialAlphaMode::Opaque, |m| m),\n"));
    assert!(text.contains("    /// Opaque.\n    Opaque,\n    Blend,\n"));
    assert!(text.contains("            \"OPAQUE\" => Self::Opaque,\n"));
    assert!(text.contains("            Self::Blend => \"BLEND\".serialize(serializer),\n"));
}

#[test]
fn generate_struct_keeps_an_enum_under_the_given_name() {
    let schema = read(
        "{\"description\": \"Kinds.\", \"anyOf\": [{\"enum\": [\"A\"]}, {\"enum\": [\"B c\"]}, {\"type\": \"string\"}]}",
    );
    let mut g = RustGenerator::new();
    assert!(g.generate_struct("Top".to_string(), &schema));
    assert_eq!(g.rust_types.len(), 1);
    assert_eq!(g.rust_types[0].0, "Top");
    match &g.rust_types[0].1 {
        RustType::Enum(e) => {
            assert_eq!(e.members.len(), 2);
            assert_eq!(e.members[1].name, "BC");
            assert!(matches!(&e.members[1].json_value, JsonEnumValue::String(s) if s == "B c"));
        }
        _ => panic!("an enum was expected"),
    }
    let mut h = RustGenerator::new();
    assert!(!h.generate_struct("Top".to_string(), &read("{\"type\": \"object\"}")));
    assert!(h.generate(&read("{\"type\": \"object\"}")).is_none());
}
