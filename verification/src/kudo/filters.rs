use vstd::prelude::*;

use crate::kudo::world::{ComponentId, Filter, FilterType};

verus! {

/// Extra conditions of a query that fetch nothing.
pub trait FilterTrait {
    /// The conditions.
    spec fn filters(&self) -> Seq<Filter>;

    /// Appends the conditions to `filters`.
    fn append_filters(&self, filters: &mut Vec<Filter>)
        ensures
            final(filters)@ == old(filters)@ + self.filters(),
    ;
}

/// Entities must have a component of this kind.
pub struct With {
    pub component_id: ComponentId,
}

/// Entities must not have a component of this kind.
pub struct Without {
    pub component_id: ComponentId,
}

impl FilterTrait for With {
    open spec fn filters(&self) -> Seq<Filter> {
        seq![Filter { component_id: self.component_id, filter_type: FilterType::With }]
    }

    fn append_filters(&self, filters: &mut Vec<Filter>) {
        filters.push(Filter { component_id: self.component_id, filter_type: FilterType::With });
        assert(filters@ =~= old(filters)@ + self.filters());
    }
}

impl FilterTrait for Without {
    open spec fn filters(&self) -> Seq<Filter> {
        seq![Filter { component_id: self.component_id, filter_type: FilterType::Without }]
    }

    fn append_filters(&self, filters: &mut Vec<Filter>) {
        filters.push(Filter { component_id: self.component_id, filter_type: FilterType::Without });
        assert(filters@ =~= old(filters)@ + self.filters());
    }
}

impl FilterTrait for () {
    open spec fn filters(&self) -> Seq<Filter> {
        Seq::empty()
    }

    fn append_filters(&self, filters: &mut Vec<Filter>) {
        assert(filters@ =~= old(filters)@ + self.filters());
    }
}

impl<A: FilterTrait, B: FilterTrait> FilterTrait for (A, B) {
    open spec fn filters(&self) -> Seq<Filter> {
        self.0.filters() + self.1.filters()
    }

    fn append_filters(&self, filters: &mut Vec<Filter>) {
        self.0.append_filters(filters);
        self.1.append_filters(filters);
        assert(filters@ =~= old(filters)@ + self.filters());
    }
}

} // verus!
