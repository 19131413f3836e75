use koi::kreflect::common::{
    Attribute, AttributeStyle, Enum, EnumVariant, Field, Fields, GenericParam, GenericParams, Path,
    Struct, Type, TypeParamBound, TypeParamBounds, Value, Visibility,
};
use koi::kserde::derive_impl::{kserde_deserialize_impl, kserde_serialize_impl};
use koi::kudo::derive_impl::{kudo_component_impl, kudo_non_clone_component_impl};

const POINT: &str = "impl<KSer: kserde::Serializer, > kserde::Serialize<KSer> for Point  {\n        fn serialize(&self, serializer: &mut KSer) {\n        serializer.begin_object();\n            serializer.property(\"x\");\n    serializer.value(&self.x);\n\n        serializer.end_object();\n    }\n}";
const ENUM_E: &str = "impl<T,KSer: kserde::Serializer, > kserde::Serialize<KSer> for E<T,> where T: Serialize<KSer>, \n {\n        fn serialize(&self, serializer: &mut KSer) {\n        serializer.begin_object();\n        match self {\n                        E::A => {\n    serializer.property(\"A\");\n    serializer.begin_object();\n    serializer.end_object();\n},\n    E::B(i0,) => {\n    serializer.property(\"B\");\n    serializer.begin_object();\n    serializer.property(\"0\");\n    serializer.value(&i0);\nserializer.end_object();\n},    E::C{v,} => {\n    serializer.property(\"C\");\n    serializer.begin_object();\n    serializer.property(\"v\");\n    serializer.value(&v);\nserializer.end_object();\n},\n                }\n        serializer.end_object();\n    }\n}";
const THING: &str = "impl<'kserde, KDes: kserde::Deserializer<'kserde>, > kserde::Deserialize<'kserde, KDes> for Thing  {\n    fn deserialize(deserializer: &mut KDes) -> Option<Self> {\n        deserializer.begin_object().then(|| {})?;\n       let result = {\n                let mut f_x: Option<f32> = None;\n\n            while let Some(p) = deserializer.has_property() {\n                match &*p {\n                                    \"x\" => f_x = Some(<f32>::deserialize(deserializer)?),\n\n                    _ => {}\n                }\n            }\n            Some(Self {\n                        x: f_x?,\n\n            })\n            };\n       deserializer.end_object();\n       result\n    }\n}";
const OPT: &str = "impl<'kserde, KDes: kserde::Deserializer<'kserde>, > kserde::Deserialize<'kserde, KDes> for Opt  {\n    fn deserialize(deserializer: &mut KDes) -> Option<Self> {\n        deserializer.begin_object().then(|| {})?;\n       let result = {\n                let mut f_a: Option<u8> = None;\n\n            while let Some(p) = deserializer.has_property() {\n                match &*p {\n                                    \"a\" => f_a = Some(<u8>::deserialize(deserializer)?),\n\n                    _ => {}\n                }\n            }\n            Some(Self {\n                    a: f_a,\n        b: std::default::Default::default(),\n\n            })\n            };\n       deserializer.end_object();\n       result\n    }\n}";
const ENUM_D: &str = "impl<'kserde, KDes: kserde::Deserializer<'kserde>, > kserde::Deserialize<'kserde, KDes> for D  {\n    fn deserialize(deserializer: &mut KDes) -> Option<Self> {\n        deserializer.begin_object().then(|| {})?;\n       let result = {\n                let enum_name = deserializer.has_property()?;\n                deserializer.begin_object().then(|| {})?;\n                deserializer.end_object();\n                \n                Some(match &*enum_name {\n                    \"A\" => D::A,\n                            \"B\" => {\n                                    let mut f_0: Option<u8> = None;\n\n                                while let Some(p) = deserializer.has_property() {\n                                    match &*p {\n                                                        \"0\" => f_0 = Some(<u8>::deserialize(deserializer)?),\n\n                                        _ => {}\n                                    }\n                                }\n                                D::B(f_0?,)\n                            }\n                        \n                    _ => None?\n                })\n            };\n       deserializer.end_object();\n       result\n    }\n}";
const KUDO_CLONE: &str = "\n        impl<a,T: Clone,> ComponentTrait for Foo<'a,T,> {\n            fn clone_components(\n                _entity_migrator: &mut EntityMigrator,\n                items: &[Self],\n            ) -> Option<Vec<Self>> {\n                Some(items.into())\n            }\n        }\n    ";
const KUDO_NON_CLONE: &str = "\n        impl<> ComponentTrait for Bar {\n            fn clone_components(\n                _entity_migrator: &mut EntityMigrator,\n                _items: &[Self],\n            ) -> Option<Vec<Self>> {\n               None\n            }\n        }\n    ";

fn name_type(n: &str) -> Type {
    Type::Name(Path::new(&[n.to_string()]))
}

fn skip_attribute() -> Attribute {
    Attribute {
        path: Path::new(&["skip".to_string()]),
        tokens: Vec::new(),
        attribute_style: AttributeStyle::Outer,
    }
}

fn field(name: Option<&str>, ty: Type, skip: bool) -> Field {
    Field {
        attributes: if skip { vec![skip_attribute()] } else { Vec::new() },
        name: name.map(|n| n.to_string()),
        _type: ty,
        visibility: Visibility::Pub,
    }
}

#[test]
fn kersde_impl() {
    let value = Value::Struct(Struct {
        name: "Thing".into(),
        visibility: Visibility::Private,
        generic_parameters: GenericParams(Vec::new()),
        fields: Fields::Struct(vec![Field {
            name: Some("x".into()),
            _type: Type::Name(Path::new(&["f32".into()])),
            visibility: Visibility::Pub,
            attributes: Vec::new(),
        }]),
    });

    println!("{}", kserde_deserialize_impl(&value));
    assert_eq!(kserde_deserialize_impl(&value), THING);
}

#[test]
fn serialize_struct_skips_marked_fields() {
    let value = Value::Struct(Struct {
        name: "Point".into(),
        visibility: Visibility::Pub,
        generic_parameters: GenericParams(Vec::new()),
        fields: Fields::Struct(vec![
            field(Some("x"), name_type("i32"), false),
            field(Some("y"), name_type("i32"), true),
        ]),
    });
    assert_eq!(kserde_serialize_impl(&value), POINT);
}

#[test]
fn serialize_enum_with_generic() {
    let value = Value::Enum(Enum {
        name: "E".into(),
        visibility: Visibility::Private,
        generic_parameters: GenericParams(vec![GenericParam::Type {
            identifier: "T".into(),
            type_bounds: TypeParamBounds(Vec::new()),
        }]),
        variants: vec![
            EnumVariant { attributes: Vec::new(), name: "A".into(), fields: Fields::Unit },
            EnumVariant {
                attributes: Vec::new(),
                name: "B".into(),
                fields: Fields::Tuple(vec![
                    field(None, name_type("T"), false),
                    field(None, name_type("u8"), true),
                ]),
            },
            EnumVariant {
                attributes: Vec::new(),
                name: "C".into(),
                fields: Fields::Struct(vec![field(Some("v"), name_type("u8"), false)]),
            },
        ],
    });
    assert_eq!(kserde_serialize_impl(&value), ENUM_E);
}

#[test]
fn deserialize_option_and_skipped_fields() {
    let option_u8 = Type::Name(Path {
        segments: vec![koi::kreflect::common::PathSegment {
            path_segment_type: koi::kreflect::common::PathSegmentType::Named("Option".into()),
            args: vec![koi::kreflect::common::GenericArgument::Type(name_type("u8"))],
        }],
    });
    assert_eq!(option_u8.as_string(), "Option<u8>");
    let value = Value::Struct(Struct {
        name: "Opt".into(),
        visibility: Visibility::Private,
        generic_parameters: GenericParams(Vec::new()),
        fields: Fields::Struct(vec![
            field(Some("a"), option_u8, false),
            field(Some("b"), name_type("u8"), true),
        ]),
    });
    assert_eq!(kserde_deserialize_impl(&value), OPT);
}

#[test]
fn deserialize_enum_variants() {
    let value = Value::Enum(Enum {
        name: "D".into(),
        visibility: Visibility::Private,
        generic_parameters: GenericParams(Vec::new()),
        variants: vec![
            EnumVariant { attributes: Vec::new(), name: "A".into(), fields: Fields::Unit },
            EnumVariant {
                attributes: Vec::new(),
                name: "B".into(),
                fields: Fields::Tuple(vec![field(None, name_type("u8"), false)]),
            },
        ],
    });
    assert_eq!(kserde_deserialize_impl(&value), ENUM_D);
}

#[test]
fn component_impls() {
    let foo = Value::Struct(Struct {
        name: "Foo".into(),
        visibility: Visibility::Private,
        generic_parameters: GenericParams(vec![
            GenericParam::Lifetime { identifier: "a".into() },
            GenericParam::Type {
                identifier: "T".into(),
                type_bounds: TypeParamBounds(vec![TypeParamBound::Trait(Path::new(&[
                    "Clone".to_string()
                ]))]),
            },
        ]),
        fields: Fields::Unit,
    });
    assert_eq!(kudo_component_impl(&foo), KUDO_CLONE);
    let bar = Value::Enum(Enum {
        name: "Bar".into(),
        visibility: Visibility::Private,
        generic_parameters: GenericParams(Vec::new()),
        variants: Vec::new(),
    });
    assert_eq!(kudo_non_clone_component_impl(&bar), KUDO_NON_CLONE);
}
