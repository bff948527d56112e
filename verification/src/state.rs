//! The state of one query against one store: the compiled query, the cache of
//! the archetypes that hold its entities, and a row buffer that is filled anew
//! for each entity.
use crate::archematch::{
    extends, lists, looked_at, spec_contains, spec_matches, spec_tick_matches, MatchedArchetypes,
};
use crate::iter::{by_archetype, kept_of_archetypes, DynamicQueryIter, RoDynamicQueryIter};
use crate::dynamic_query::{DynamicItem, DynamicQuery};
use crate::fetches::Fetches;
use crate::filters::Filters;
use crate::store::{
    archetype_count, archetype_table, are_recorded, last_run_of, present_tick_of, read_archetype,
    world_archetypes, world_last_run, world_table, ArchetypeId, Entity, EntityCell, Tick,
};
use bevy_ecs::archetype::Archetypes;
use bevy_ecs::world::World;
use vstd::prelude::*;

verus! {

/// The window of change detection: a change counts when it came after
/// `last_run`, seen from `this_run`.
#[derive(Clone, Copy, Debug)]
pub struct Ticks {
    /// When the query last ran.
    pub last_run: Tick,
    /// The present tick of the store.
    pub this_run: Tick,
}

impl Default for Ticks {
    fn default() -> (ticks: Self)
        ensures
            ticks.last_run == Tick(0),
            ticks.this_run == Tick(0),
    {
        Ticks { last_run: Tick(0), this_run: Tick(0) }
    }
}

impl Ticks {
    /// The window of the store `world`: from the tick at which its trackers
    /// were last cleared to its present tick.
    pub fn of(world: &World) -> (ticks: Self)
        ensures
            ticks.last_run.0 == world_last_run(*world),
    {
        Self { last_run: last_run_of(world), this_run: present_tick_of(world) }
    }

    /// The window from `last_run` to `this_run`.
    pub fn new(last_run: Tick, this_run: Tick) -> (ticks: Self)
        ensures
            ticks.last_run == last_run,
            ticks.this_run == this_run,
    {
        Self { last_run, this_run }
    }
}

/// Why a query has no row for an entity.
#[derive(Clone, Copy, Debug, PartialEq, Eq, Structural)]
pub enum DynamicQueryError {
    /// No entity with this id exists in the store.
    Dangling(Entity),
    /// The entity doesn't have the right set of components to satisfy the
    /// query.
    Unmatched(Entity),
    /// The entity has the right set of components, but none of them changed
    /// as the query asks within the window.
    NotInTick(Entity),
}

/// What `get` answers for the entity `entity`, of which the store holds
/// `cell`: the row of the entity, or why there is none.
pub open spec fn spec_get(
    fetches: Fetches,
    filters: Filters,
    cache: MatchedArchetypes,
    ticks: Ticks,
    entity: Entity,
    cell: Option<EntityCell>,
    read_only: bool,
) -> Result<Seq<DynamicItem>, DynamicQueryError> {
    match cell {
        None => Err(DynamicQueryError::Dangling(entity)),
        Some(found) => if !cache.matches().contains(found.archetype.0 as nat) {
            Err(DynamicQueryError::Unmatched(entity))
        } else if !spec_contains(cache.matches(), cache.tick_matches(), filters@, found, ticks) {
            Err(DynamicQueryError::NotInTick(entity))
        } else {
            Ok(fetches.spec_row(found, read_only))
        },
    }
}

/// A query together with what it knows of one store.
pub struct DynamicState {
    pub(crate) fetches: Fetches,
    pub(crate) filters: Filters,
    pub(crate) archetype_ids: MatchedArchetypes,
    item_buffer: Vec<DynamicItem>,
}

impl DynamicState {
    /// What the query fetches.
    pub closed spec fn spec_fetches(&self) -> Fetches {
        self.fetches
    }

    /// Which entities the query keeps.
    pub closed spec fn spec_filters(&self) -> Filters {
        self.filters
    }

    /// The cache of the archetypes that hold entities of the query.
    pub closed spec fn cache(&self) -> MatchedArchetypes {
        self.archetype_ids
    }

    /// The row that was fetched last.
    pub closed spec fn buffer(&self) -> Seq<DynamicItem> {
        self.item_buffer@
    }

    /// The state fetches and keeps what `query` does.
    pub open spec fn is_of(&self, query: DynamicQuery) -> bool {
        &&& self.spec_fetches().spec_has_entity() == query.spec_fetches().spec_has_entity()
        &&& self.spec_fetches().cells() == query.spec_fetches().cells()
        &&& self.spec_fetches().ends() == query.spec_fetches().ends()
        &&& self.spec_filters()@ == query.spec_filters()@
    }

    /// The state agrees with an evaluation from scratch of its query on the
    /// archetypes of `table`.
    pub open spec fn covers(&self, table: Seq<Seq<usize>>) -> bool {
        self.cache().covers(self.spec_fetches(), self.spec_filters(), table)
    }

    /// The state of `query` that has looked at no archetype yet.
    pub fn detached(query: &DynamicQuery) -> (state: Self)
        ensures
            state.is_of(*query),
            state.cache().last_seen() == 0,
            state.cache().matches() == Set::<nat>::empty(),
            state.cache().tick_matches() == Set::<nat>::empty(),
    {
        let item_count: usize = query.fetches().len();
        DynamicState {
            fetches: query.fetches().clone(),
            filters: query.filters().clone(),
            archetype_ids: MatchedArchetypes::empty(),
            item_buffer: Vec::with_capacity(item_count),
        }
    }

    /// The state of `query` against the store `world`: it has looked at every
    /// archetype. The store is left as it is.
    pub fn in_world(query: &DynamicQuery, world: &mut World) -> (state: Self)
        ensures
            *final(world) == *old(world),
            state.is_of(*query),
            state.covers(looked_at(world_table(*old(world)))),
            state.cache().last_seen() == looked_at(world_table(*old(world))).len(),
    {
        Self::new(query, world_archetypes(world))
    }

    /// The state of `query` against the store with the archetypes `world`:
    /// it has looked at every archetype.
    pub fn new(query: &DynamicQuery, world: &Archetypes) -> (state: Self)
        ensures
            state.is_of(*query),
            state.covers(looked_at(archetype_table(*world))),
            state.cache().last_seen() == looked_at(archetype_table(*world)).len(),
    {
        let item_count: usize = query.fetches().len();
        let fetches: Fetches = query.fetches().clone();
        let filters: Filters = query.filters().clone();
        let archetype_ids: MatchedArchetypes = MatchedArchetypes::new(&fetches, &filters, world);
        let item_buffer: Vec<DynamicItem> = Vec::with_capacity(item_count);
        DynamicState { fetches, filters, archetype_ids, item_buffer }
    }

    /// Looks at the archetypes that the store got since the state last looked
    /// at it, and takes in those that hold entities of the query.
    ///
    /// A state that agreed with the store before agrees with it afterwards,
    /// and has looked at all of it. When the store has no new archetype,
    /// nothing changes.
    pub fn add_archetypes(&mut self, archetypes: &Archetypes)
        ensures
            final(self).spec_fetches() == old(self).spec_fetches(),
            final(self).spec_filters() == old(self).spec_filters(),
            final(self).buffer() == old(self).buffer(),
            extends(
                old(self).cache(),
                final(self).cache(),
                old(self).spec_fetches(),
                old(self).spec_filters(),
                looked_at(archetype_table(*archetypes)),
            ),
            old(self).covers(looked_at(archetype_table(*archetypes))) ==> final(self).covers(
                looked_at(archetype_table(*archetypes)),
            ),
            old(self).cache().last_seen() >= looked_at(archetype_table(*archetypes)).len() ==> {
                &&& final(self).cache().matches() == old(self).cache().matches()
                &&& final(self).cache().tick_matches() == old(self).cache().tick_matches()
                &&& final(self).cache().last_seen() == old(self).cache().last_seen()
            },
    {
        self.archetype_ids.add_archetypes(&self.fetches, &self.filters, archetypes);
    }

    /// Looks at the next archetype of the store, whose components are
    /// `components`: its id is the number of archetypes looked at so far.
    ///
    /// Archetype ids are 32-bit numbers, so at most `u32::MAX` archetypes can
    /// be looked at.
    pub fn add_archetype(&mut self, components: &[usize])
        requires
            old(self).cache().last_seen() < u32::MAX,
        ensures
            final(self).spec_fetches() == old(self).spec_fetches(),
            final(self).spec_filters() == old(self).spec_filters(),
            final(self).buffer() == old(self).buffer(),
            final(self).cache().last_seen() == old(self).cache().last_seen() + 1,
            final(self).cache().matches() == if spec_matches(
                old(self).spec_fetches(),
                old(self).spec_filters()@,
                components@,
            ) {
                old(self).cache().matches().insert(old(self).cache().last_seen())
            } else {
                old(self).cache().matches()
            },
            final(self).cache().tick_matches() == if spec_tick_matches(
                old(self).spec_fetches(),
                old(self).spec_filters()@,
                components@,
            ) {
                old(self).cache().tick_matches().insert(old(self).cache().last_seen())
            } else {
                old(self).cache().tick_matches()
            },
    {
        self.archetype_ids.add_archetype(&self.fetches, &self.filters, components);
    }

    /// What the query fetches.
    pub fn fetches(&self) -> (fetches: &Fetches)
        ensures
            *fetches == self.spec_fetches(),
    {
        &self.fetches
    }

    /// Which entities the query keeps.
    pub fn filters(&self) -> (filters: &Filters)
        ensures
            *filters == self.spec_filters(),
    {
        &self.filters
    }

    /// Reads from the store `world` what the engine needs of the entities of
    /// the query: the entities of each archetype that can hold entities of the
    /// query, the archetypes by id. The other archetypes are left without
    /// entities. Every entity stands under its own archetype.
    pub fn entities(&self, world: &World) -> (cells: Vec<Vec<EntityCell>>)
        ensures
            cells@.len() == looked_at(world_table(*world)).len(),
            forall|id: int|
                0 <= id < cells@.len() ==> if self.cache().matches().contains(id as nat) {
                    are_recorded((#[trigger] cells@[id])@, *world, id)
                } else {
                    cells@[id]@.len() == 0
                },
            by_archetype(cells@),
    {
        let count: usize = archetype_count(world_archetypes(world));
        let getter = self.archetype_ids.getter(&self.filters);
        let mut cells: Vec<Vec<EntityCell>> = Vec::new();
        let mut id: u32 = 0;
        while (id as usize) < count && id < u32::MAX
            invariant
                count == world_table(*world).len(),
                id <= count,
                cells@.len() == id,
                getter.matches() == self.cache().matches(),
                forall|at: int|
                    0 <= at < cells@.len() ==> if self.cache().matches().contains(at as nat) {
                        are_recorded((#[trigger] cells@[at])@, *world, at)
                    } else {
                        cells@[at]@.len() == 0
                    },
            decreases u32::MAX - id,
        {
            let of_archetype: Vec<EntityCell> = if getter.has(ArchetypeId(id)) {
                read_archetype(world, id)
            } else {
                Vec::new()
            };
            cells.push(of_archetype);
            id += 1;
        }
        proof {
            assert forall|at: int, k: int|
                0 <= at < cells@.len() && 0 <= k < cells@[at]@.len() implies (
            #[trigger] cells@[at]@[k]).archetype.0 == at by {
                assert(self.cache().matches().contains(at as nat));
                assert(are_recorded(cells@[at]@, *world, at));
            }
        }
        cells
    }

    /// How many archetypes of the store the state has looked at.
    pub fn archetypes_seen(&self) -> (count: usize)
        ensures
            count == self.cache().last_seen(),
    {
        self.archetype_ids.seen()
    }

    /// The ids of the archetypes that can hold entities of the query, in
    /// ascending order.
    pub fn matched_archetypes(&self) -> (ids: Vec<u32>)
        ensures
            lists(ids@, self.cache().matches()),
    {
        self.archetype_ids.matched()
    }

    /// The parts of the state that a walk over its rows reads.
    pub(crate) fn parts(&self) -> (parts: (&Fetches, &Filters, &MatchedArchetypes))
        ensures
            *parts.0 == self.spec_fetches(),
            *parts.1 == self.spec_filters(),
            *parts.2 == self.cache(),
    {
        (&self.fetches, &self.filters, &self.archetype_ids)
    }

    /// Overwrites the row buffer with the row of `entity`.
    fn buffer_row(&mut self, entity: &EntityCell, read_only: bool)
        ensures
            final(self).spec_fetches() == old(self).spec_fetches(),
            final(self).spec_filters() == old(self).spec_filters(),
            final(self).cache() == old(self).cache(),
            final(self).buffer() == old(self).spec_fetches().spec_row(*entity, read_only),
    {
        self.item_buffer.clear();
        self.fetches.fetch_into(entity, read_only, &mut self.item_buffer);
        proof {
            assert(Seq::<DynamicItem>::empty() + self.fetches.spec_row(*entity, read_only)
                =~= self.fetches.spec_row(*entity, read_only));
        }
    }

    /// Decides whether the query has a row for `entity`, of which the store
    /// holds `cell`, and fetches the row into the buffer.
    fn fetch(
        &mut self,
        ticks: Ticks,
        entity: Entity,
        cell: Option<&EntityCell>,
        read_only: bool,
    ) -> (outcome: Result<(), DynamicQueryError>)
        ensures
            final(self).spec_fetches() == old(self).spec_fetches(),
            final(self).spec_filters() == old(self).spec_filters(),
            final(self).cache() == old(self).cache(),
            match spec_get(
                old(self).spec_fetches(),
                old(self).spec_filters(),
                old(self).cache(),
                ticks,
                entity,
                match cell {
                    Some(found) => Some(*found),
                    None => None,
                },
                read_only,
            ) {
                Ok(row) => outcome is Ok && final(self).buffer() == row,
                Err(error) => outcome == Err::<(), DynamicQueryError>(error) && final(self).buffer()
                    == old(self).buffer(),
            },
    {
        let found: &EntityCell = match cell {
            Some(found) => found,
            None => {
                return Err(DynamicQueryError::Dangling(entity));
            },
        };
        let getter = self.archetype_ids.getter(&self.filters);
        if !getter.contains(ticks, found) {
            if getter.is_matched(found) {
                return Err(DynamicQueryError::NotInTick(entity));
            }
            return Err(DynamicQueryError::Unmatched(entity));
        }
        self.buffer_row(found, read_only);
        Ok(())
    }

    /// The row of `entity`, of which the store holds `cell`: `None` if the
    /// store has no such entity. Exclusive access is handed out as shared
    /// access.
    pub fn get(&mut self, ticks: Ticks, entity: Entity, cell: Option<&EntityCell>) -> (row: Result<
        &[DynamicItem],
        DynamicQueryError,
    >)
        ensures
            match spec_get(
                old(self).spec_fetches(),
                old(self).spec_filters(),
                old(self).cache(),
                ticks,
                entity,
                match cell {
                    Some(found) => Some(*found),
                    None => None,
                },
                true,
            ) {
                Ok(items) => row is Ok && row.unwrap()@ == items && final(self).buffer() == items,
                Err(error) => row is Err && row.unwrap_err() == error && final(self).buffer()
                    == old(self).buffer(),
            },
            final(self).spec_fetches() == old(self).spec_fetches(),
            final(self).spec_filters() == old(self).spec_filters(),
            final(self).cache() == old(self).cache(),
    {
        match self.fetch(ticks, entity, cell, true) {
            Ok(()) => Ok(self.item_buffer.as_slice()),
            Err(error) => Err(error),
        }
    }

    /// The row of `entity`, of which the store holds `cell`, with exclusive
    /// access where the query asks for it.
    pub fn get_unchecked_manual(
        &mut self,
        ticks: Ticks,
        entity: Entity,
        cell: Option<&EntityCell>,
    ) -> (row: Result<&mut [DynamicItem], DynamicQueryError>)
        ensures
            match spec_get(
                old(self).spec_fetches(),
                old(self).spec_filters(),
                old(self).cache(),
                ticks,
                entity,
                match cell {
                    Some(found) => Some(*found),
                    None => None,
                },
                false,
            ) {
                Ok(items) => row is Ok && row.unwrap()@ == items,
                Err(error) => row is Err && row.unwrap_err() == error && final(self).buffer()
                    == old(self).buffer(),
            },
            row matches Ok(items) ==> final(self).buffer() == final(items)@,
            final(self).spec_fetches() == old(self).spec_fetches(),
            final(self).spec_filters() == old(self).spec_filters(),
            final(self).cache() == old(self).cache(),
    {
        match self.fetch(ticks, entity, cell, false) {
            Ok(()) => Ok(self.item_buffer.as_mut_slice()),
            Err(error) => Err(error),
        }
    }

    /// The row of `entity`, of which the store holds `cell`: `None` if the
    /// store has no such entity. Exclusive access is handed out where the
    /// query asks for it.
    pub fn get_mut(&mut self, ticks: Ticks, entity: Entity, cell: Option<&EntityCell>) -> (row:
        Result<&mut [DynamicItem], DynamicQueryError>)
        ensures
            match spec_get(
                old(self).spec_fetches(),
                old(self).spec_filters(),
                old(self).cache(),
                ticks,
                entity,
                match cell {
                    Some(found) => Some(*found),
                    None => None,
                },
                false,
            ) {
                Ok(items) => row is Ok && row.unwrap()@ == items,
                Err(error) => row is Err && row.unwrap_err() == error && final(self).buffer()
                    == old(self).buffer(),
            },
            row matches Ok(items) ==> final(self).buffer() == final(items)@,
            final(self).spec_fetches() == old(self).spec_fetches(),
            final(self).spec_filters() == old(self).spec_filters(),
            final(self).cache() == old(self).cache(),
    {
        self.get_unchecked_manual(ticks, entity, cell)
    }

    /// A cursor over the rows of the entities of `world`, with shared access
    /// only: `world` holds the entities of each archetype, the archetypes by
    /// id.
    pub fn iter<'w, 's>(&'s mut self, ticks: Ticks, world: &'w [Vec<EntityCell>]) -> (rows:
        RoDynamicQueryIter<'w, 's>)
        ensures
            lists(rows.archetypes(), old(self).cache().matches()),
            rows.spec_fetches() == old(self).spec_fetches(),
            rows.is_read_only(),
            rows.pending() == kept_of_archetypes(
                old(self).spec_filters()@,
                rows.archetypes(),
                old(self).cache().tick_matches(),
                world@,
                0,
                ticks,
            ),
    {
        RoDynamicQueryIter::new(world, ticks, self)
    }

    /// A cursor over the rows of the entities of `world`, with exclusive
    /// access where the query asks for it.
    pub fn iter_mut<'w, 's>(&'s mut self, ticks: Ticks, world: &'w [Vec<EntityCell>]) -> (rows:
        DynamicQueryIter<'w, 's>)
        ensures
            lists(rows.archetypes(), old(self).cache().matches()),
            rows.spec_fetches() == old(self).spec_fetches(),
            !rows.is_read_only(),
            rows.pending() == kept_of_archetypes(
                old(self).spec_filters()@,
                rows.archetypes(),
                old(self).cache().tick_matches(),
                world@,
                0,
                ticks,
            ),
    {
        DynamicQueryIter::new(world, ticks, self)
    }
}

impl Clone for DynamicState {
    /// A state of its own with the same query and the same cache.
    fn clone(&self) -> (copy: Self)
        ensures
            copy.spec_fetches().spec_has_entity() == self.spec_fetches().spec_has_entity(),
            copy.spec_fetches().cells() == self.spec_fetches().cells(),
            copy.spec_fetches().ends() == self.spec_fetches().ends(),
            copy.spec_filters()@ == self.spec_filters()@,
            copy.cache().matches() == self.cache().matches(),
            copy.cache().tick_matches() == self.cache().tick_matches(),
            copy.cache().last_seen() == self.cache().last_seen(),
    {
        DynamicState {
            fetches: self.fetches.clone(),
            filters: self.filters.clone(),
            archetype_ids: self.archetype_ids.clone(),
            item_buffer: Vec::with_capacity(self.fetches.len()),
        }
    }
}

} // verus!
