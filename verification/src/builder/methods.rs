//! Describing a query step by step.
use super::{AndFilter, AndFilters, BuildError, Fetch, FetchData, OrFilters};
use crate::dynamic_query::DynamicQuery;
use crate::fetches::{distinct_required, entity_count, sorted_fetches};
use crate::filters::{compiles_to, has_duplicate};
use crate::store::ComponentId;
use vstd::prelude::*;

verus! {

/// Collects the conditions of one conjunction.
pub struct OrBuilder {
    filters: AndFilters,
}

/// Collects what a query fetches and the conjunctions of its conditions.
pub struct DynamicQueryBuilder {
    fetches: Vec<Fetch>,
    filters: OrFilters,
    unregistered: bool,
}

impl OrBuilder {
    /// The conditions collected so far.
    pub closed spec fn conditions(&self) -> Seq<AndFilter> {
        self.filters.0@
    }

    /// A conjunction without conditions.
    pub fn new() -> (builder: Self)
        ensures
            builder.conditions() == Seq::<AndFilter>::empty(),
    {
        OrBuilder { filters: AndFilters(Vec::new()) }
    }

    /// Adds a condition.
    fn push(&mut self, condition: AndFilter) -> (this: &mut Self)
        ensures
            *final(self) == *final(this),
            this.conditions() == old(self).conditions().push(condition),
    {
        self.filters.0.push(condition);
        self
    }

    /// Asks for the component `id` to be there.
    pub fn with_by_id(&mut self, id: ComponentId) -> (this: &mut Self)
        ensures
            *final(self) == *final(this),
            this.conditions() == old(self).conditions().push(AndFilter::With(id)),
    {
        self.push(AndFilter::With(id))
    }

    /// Asks for the component `id` not to be there.
    pub fn without_by_id(&mut self, id: ComponentId) -> (this: &mut Self)
        ensures
            *final(self) == *final(this),
            this.conditions() == old(self).conditions().push(AndFilter::Without(id)),
    {
        self.push(AndFilter::Without(id))
    }

    /// Asks for the component `id` to have been added since the last run.
    pub fn added_by_id(&mut self, id: ComponentId) -> (this: &mut Self)
        ensures
            *final(self) == *final(this),
            this.conditions() == old(self).conditions().push(AndFilter::Added(id)),
    {
        self.push(AndFilter::Added(id))
    }

    /// Asks for the component `id` to have changed since the last run.
    pub fn changed_by_id(&mut self, id: ComponentId) -> (this: &mut Self)
        ensures
            *final(self) == *final(this),
            this.conditions() == old(self).conditions().push(AndFilter::Changed(id)),
    {
        self.push(AndFilter::Changed(id))
    }
}

impl DynamicQueryBuilder {
    /// What the query fetches, as collected so far.
    pub closed spec fn fetched(&self) -> Seq<Fetch> {
        self.fetches@
    }

    /// The conjunctions collected so far.
    pub closed spec fn conjunctions(&self) -> OrFilters {
        self.filters
    }

    /// A component was named that the registry does not know.
    pub closed spec fn names_unregistered(&self) -> bool {
        self.unregistered
    }

    /// A description that fetches nothing and keeps every entity.
    pub fn new() -> (builder: Self)
        ensures
            builder.fetched() == Seq::<Fetch>::empty(),
            builder.conjunctions().0@ == Seq::<AndFilters>::empty(),
            !builder.names_unregistered(),
    {
        Self { fetches: Vec::new(), filters: OrFilters(Vec::new()), unregistered: false }
    }

    /// Adds a fetch.
    fn push(&mut self, fetch: Fetch) -> (this: &mut Self)
        ensures
            *final(self) == *final(this),
            this.fetched() == old(self).fetched().push(fetch),
            this.conjunctions() == old(self).conjunctions(),
            this.names_unregistered() == old(self).names_unregistered(),
    {
        self.fetches.push(fetch);
        self
    }

    /// Adds the conditions of `conjunction` as one more conjunction: an
    /// entity is kept when it meets all the conditions of one conjunction.
    pub fn or(&mut self, conjunction: OrBuilder) -> (this: &mut Self)
        ensures
            *final(self) == *final(this),
            this.fetched() == old(self).fetched(),
            this.conjunctions().0@.len() == old(self).conjunctions().0@.len() + 1,
            this.conjunctions().0@.drop_last() == old(self).conjunctions().0@,
            this.conjunctions().0@.last().0@ == conjunction.conditions(),
            this.names_unregistered() == old(self).names_unregistered(),
    {
        let ghost before = self.filters.0@;
        self.filters.0.push(conjunction.filters);
        proof {
            assert(self.filters.0@.drop_last() =~= before);
        }
        self
    }

    /// Records that a component was named that the registry does not know:
    /// `build` then fails with `UnregisteredComponent`.
    pub fn unregistered(&mut self) -> (this: &mut Self)
        ensures
            *final(self) == *final(this),
            this.fetched() == old(self).fetched(),
            this.conjunctions() == old(self).conjunctions(),
            this.names_unregistered(),
    {
        self.unregistered = true;
        self
    }

    /// Fetches shared access to a component that the entity must have.
    pub fn ref_by_id(&mut self, info: FetchData) -> (this: &mut Self)
        ensures
            *final(self) == *final(this),
            this.fetched() == old(self).fetched().push(Fetch::Read(info)),
            this.conjunctions() == old(self).conjunctions(),
            this.names_unregistered() == old(self).names_unregistered(),
    {
        self.push(Fetch::Read(info))
    }

    /// Fetches exclusive access to a component that the entity must have.
    pub fn mut_by_id(&mut self, info: FetchData) -> (this: &mut Self)
        ensures
            *final(self) == *final(this),
            this.fetched() == old(self).fetched().push(Fetch::Mut(info)),
            this.conjunctions() == old(self).conjunctions(),
            this.names_unregistered() == old(self).names_unregistered(),
    {
        self.push(Fetch::Mut(info))
    }

    /// Fetches shared access to a component that the entity may have.
    pub fn optional_ref_by_id(&mut self, info: FetchData) -> (this: &mut Self)
        ensures
            *final(self) == *final(this),
            this.fetched() == old(self).fetched().push(Fetch::OptionRead(info)),
            this.conjunctions() == old(self).conjunctions(),
            this.names_unregistered() == old(self).names_unregistered(),
    {
        self.push(Fetch::OptionRead(info))
    }

    /// Fetches exclusive access to a component that the entity may have.
    pub fn optional_mut_by_id(&mut self, info: FetchData) -> (this: &mut Self)
        ensures
            *final(self) == *final(this),
            this.fetched() == old(self).fetched().push(Fetch::OptionMut(info)),
            this.conjunctions() == old(self).conjunctions(),
            this.names_unregistered() == old(self).names_unregistered(),
    {
        self.push(Fetch::OptionMut(info))
    }

    /// Fetches the id of the entity.
    pub fn entity(&mut self) -> (this: &mut Self)
        ensures
            *final(self) == *final(this),
            this.fetched() == old(self).fetched().push(Fetch::Entity),
            this.conjunctions() == old(self).conjunctions(),
            this.names_unregistered() == old(self).names_unregistered(),
    {
        self.push(Fetch::Entity)
    }

    /// Compiles the description, and leaves the builder as `new` makes it.
    ///
    /// It fails with `UnregisteredComponent` when an unknown component was
    /// named, and else as `DynamicQuery::new` does. The entity may have been
    /// asked for once, and the conjunctions may hold `u32::MAX` conditions at
    /// most.
    pub fn build(&mut self) -> (made: Result<DynamicQuery, BuildError>)
        requires
            entity_count(old(self).fetched()) <= 1,
            old(self).conjunctions().atom_count() <= u32::MAX,
        ensures
            final(self).fetched() == Seq::<Fetch>::empty(),
            final(self).conjunctions().0@ == Seq::<AndFilters>::empty(),
            !final(self).names_unregistered(),
            made is Err <==> old(self).names_unregistered() || !distinct_required(
                old(self).fetched(),
            ) || exists|g: int|
                0 <= g < old(self).conjunctions().0@.len() && has_duplicate(
                    #[trigger] old(self).conjunctions().0@[g].0@,
                ),
            made matches Err(error) ==> error == if old(self).names_unregistered() {
                BuildError::UnregisteredComponent
            } else if !distinct_required(old(self).fetched()) {
                BuildError::DuplicateFetch
            } else {
                BuildError::DuplicateFilter
            },
            made matches Ok(query) ==> {
                &&& query.spec_fetches().wf()
                &&& sorted_fetches(query.spec_fetches().items())
                &&& query.spec_fetches().items().to_multiset() == old(self).fetched().to_multiset()
                &&& query.spec_filters().wf()
                &&& query.spec_filters()@.len() == old(self).conjunctions().0@.len()
                &&& forall|g: int|
                    0 <= g < old(self).conjunctions().0@.len() ==> compiles_to(
                        #[trigger] old(self).conjunctions().0@[g].0@,
                        query.spec_filters()@[g],
                    )
            },
    {
        let mut taken: Self = Self::new();
        std::mem::swap(self, &mut taken);
        let DynamicQueryBuilder { fetches, filters, unregistered } = taken;
        if unregistered {
            return Err(BuildError::UnregisteredComponent);
        }
        DynamicQuery::new(fetches, filters)
    }
}

} // verus!
