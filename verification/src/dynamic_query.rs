//! A compiled query, and the items of the rows that it fetches.
use crate::builder::{BuildError, Fetch, OrFilters};
use crate::fetches::{distinct_required, entity_count, sorted_fetches, Fetches};
use crate::filters::{compiles_to, has_duplicate, Filters};
use crate::archematch::looked_at;
use crate::state::DynamicState;
use crate::store::{world_table, ComponentId, Entity};
use bevy_ecs::world::World;
use vstd::prelude::*;

verus! {

/// One item of a fetched row: which access to which component of the entity
/// it stands for.
///
/// The items name the components; turning a name into a reference into the
/// store is left to the code that owns the store.
#[derive(Clone, Copy, Debug, PartialEq, Eq, Structural)]
pub enum DynamicItem {
    /// The id of the entity.
    Entity(Entity),
    /// Shared access to a component of the entity.
    Read(ComponentId),
    /// Exclusive access to a component of the entity.
    Mut(ComponentId),
    /// Shared access to a component, or nothing if the entity lacks it.
    OptionRead(Option<ComponentId>),
    /// Exclusive access to a component, or nothing if the entity lacks it.
    OptionMut(Option<ComponentId>),
}

/// A compiled query: what to fetch, and which entities to keep.
pub struct DynamicQuery {
    pub(crate) fetches: Fetches,
    pub(crate) filters: Filters,
}

impl DynamicQuery {
    /// What the query fetches.
    pub closed spec fn spec_fetches(&self) -> Fetches {
        self.fetches
    }

    /// Which entities the query keeps.
    pub closed spec fn spec_filters(&self) -> Filters {
        self.filters
    }

    /// Compiles a query from the list of what to fetch and the conditions on
    /// the entities.
    ///
    /// It fails with `DuplicateFetch` when a component is fetched twice by
    /// `Read` or `Mut`, and else with `DuplicateFilter` when two inclusive
    /// conditions of one group are about the same component.
    pub fn new(fetches: Vec<Fetch>, filters: OrFilters) -> (made: Result<Self, BuildError>)
        requires
            entity_count(fetches@) <= 1,
            filters.atom_count() <= u32::MAX,
        ensures
            made is Err <==> !distinct_required(fetches@) || exists|g: int|
                0 <= g < filters.0@.len() && has_duplicate(#[trigger] filters.0@[g].0@),
            made matches Err(error) ==> error == if !distinct_required(fetches@) {
                BuildError::DuplicateFetch
            } else {
                BuildError::DuplicateFilter
            },
            made matches Ok(query) ==> {
                &&& query.spec_fetches().wf()
                &&& sorted_fetches(query.spec_fetches().items())
                &&& query.spec_fetches().items().to_multiset() == fetches@.to_multiset()
                &&& query.spec_filters().wf()
                &&& query.spec_filters().atom_count() == filters.atom_count()
                &&& query.spec_filters()@.len() == filters.0@.len()
                &&& forall|g: int|
                    0 <= g < filters.0@.len() ==> compiles_to(
                        #[trigger] filters.0@[g].0@,
                        query.spec_filters()@[g],
                    )
            },
    {
        let fetches: Fetches = match Fetches::new(fetches) {
            Ok(compiled) => compiled,
            Err(error) => {
                return Err(error);
            },
        };
        let filters: Filters = match Filters::new(filters) {
            Ok(compiled) => compiled,
            Err(error) => {
                return Err(error);
            },
        };
        Ok(DynamicQuery { fetches, filters })
    }

    /// The state of the query against the store `world`: it has looked at
    /// every archetype. The store is left as it is.
    pub fn state(&self, world: &mut World) -> (state: DynamicState)
        ensures
            *final(world) == *old(world),
            state.is_of(*self),
            state.covers(looked_at(world_table(*old(world)))),
            state.cache().last_seen() == looked_at(world_table(*old(world))).len(),
    {
        DynamicState::in_world(self, world)
    }

    /// What the query fetches.
    pub fn fetches(&self) -> (fetches: &Fetches)
        ensures
            *fetches == self.spec_fetches(),
    {
        &self.fetches
    }

    /// Which entities the query keeps.
    pub fn filters(&self) -> (filters: &Filters)
        ensures
            *filters == self.spec_filters(),
    {
        &self.filters
    }
}

impl Clone for DynamicQuery {
    /// A copy that fetches and keeps the same.
    fn clone(&self) -> (copy: Self)
        ensures
            copy.spec_fetches().spec_has_entity() == self.spec_fetches().spec_has_entity(),
            copy.spec_fetches().cells() == self.spec_fetches().cells(),
            copy.spec_fetches().ends() == self.spec_fetches().ends(),
            copy.spec_filters()@ == self.spec_filters()@,
    {
        DynamicQuery { fetches: self.fetches.clone(), filters: self.filters.clone() }
    }
}

} // verus!
