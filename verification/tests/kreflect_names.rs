use koi::kreflect::common::{Mutability, Visibility};

#[test]
fn visibility_keywords() {
    assert_eq!(Visibility::Private.as_string(), "");
    assert_eq!(Visibility::Pub.as_string(), "pub");
    assert_eq!(Visibility::Crate.as_string(), "crate");
    assert_eq!(Visibility::Super.as_string(), "super");
}

#[test]
fn mutability_keywords() {
    assert_eq!(Mutability::Mutable.as_string(), "mut");
    assert_eq!(Mutability::Immutable.as_string(), "");
}
