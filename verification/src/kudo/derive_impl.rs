use vstd::prelude::*;

use crate::kreflect::common::{Value, ValueModel};
use crate::kreflect::printing::{as_args_text, generic_param_printable, params_of_kind_text};
use crate::kserde::derive_impl::{value_generics, value_name};
use vstd::string::StringExecFns;

verus! {

/// `<` and the generic parameters as written after `impl`, then `>`.
pub open spec fn impl_args_text(v: ValueModel) -> Seq<char> {
    let g = value_generics(v);
    "<"@ + params_of_kind_text(g, 0) + params_of_kind_text(g, 1) + params_of_kind_text(g, 2) + ">"@
}

/// The `ComponentTrait` impl for a component that can be cloned.
pub open spec fn component_impl_text(v: ValueModel) -> Seq<char> {
    "\n        impl"@ + impl_args_text(v) + " ComponentTrait for "@ + value_name(v)@ + as_args_text(
        value_generics(v),
    )
        + " {\n            fn clone_components(\n                _entity_migrator: &mut EntityMigrator,\n                items: &[Self],\n            ) -> Option<Vec<Self>> {\n                Some(items.into())\n            }\n        }\n    "@
}

/// The `ComponentTrait` impl for a component that cannot be cloned.
pub open spec fn non_clone_component_impl_text(v: ValueModel) -> Seq<
    char,
> {
    "\n        impl"@ + impl_args_text(v) + " ComponentTrait for "@ + value_name(v)@ + as_args_text(
        value_generics(v),
    )
        + " {\n            fn clone_components(\n                _entity_migrator: &mut EntityMigrator,\n                _items: &[Self],\n            ) -> Option<Vec<Self>> {\n               None\n            }\n        }\n    "@
}

/// The generic parameters of the declaration can be written.
pub open spec fn generics_printable(v: ValueModel) -> bool {
    forall|i: int|
        0 <= i < value_generics(v).len() ==> generic_param_printable(
            #[trigger] value_generics(v)[i],
        )
}

/// Writes the `ComponentTrait` impl that clones a component's items.
pub fn kudo_component_impl(value: &Value) -> (r: String)
    requires
        generics_printable(value@),
    ensures
        r@ == component_impl_text(value@),
{
    let (name, generic_parameters) = match value {
        Value::Struct(s) => (&s.name, &s.generic_parameters),
        Value::Enum(e) => (&e.name, &e.generic_parameters),
    };
    assert(value_generics(value@) =~= generic_parameters@);
    let impl_args = generic_parameters.as_impl_args();
    let args = generic_parameters.as_args();
    let mut r = String::new();
    r.append("\n        impl");
    r.append(impl_args.as_str());
    r.append(" ComponentTrait for ");
    r.append(name.as_str());
    r.append(args.as_str());
    r.append(
        " {\n            fn clone_components(\n                _entity_migrator: &mut EntityMigrator,\n                items: &[Self],\n            ) -> Option<Vec<Self>> {\n                Some(items.into())\n            }\n        }\n    ",
    );
    assert(r@ =~= component_impl_text(value@));
    r
}

/// Writes the `ComponentTrait` impl for a component whose items cannot be
/// cloned.
pub fn kudo_non_clone_component_impl(value: &Value) -> (r: String)
    requires
        generics_printable(value@),
    ensures
        r@ == non_clone_component_impl_text(value@),
{
    let (name, generic_parameters) = match value {
        Value::Struct(s) => (&s.name, &s.generic_parameters),
        Value::Enum(e) => (&e.name, &e.generic_parameters),
    };
    assert(value_generics(value@) =~= generic_parameters@);
    let impl_args = generic_parameters.as_impl_args();
    let args = generic_parameters.as_args();
    let mut r = String::new();
    r.append("\n        impl");
    r.append(impl_args.as_str());
    r.append(" ComponentTrait for ");
    r.append(name.as_str());
    r.append(args.as_str());
    r.append(
        " {\n            fn clone_components(\n                _entity_migrator: &mut EntityMigrator,\n                _items: &[Self],\n            ) -> Option<Vec<Self>> {\n               None\n            }\n        }\n    ",
    );
    assert(r@ =~= non_clone_component_impl_text(value@));
    r
}

} // verus!
