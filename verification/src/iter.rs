//! Walking the rows of a query.
//!
//! The archetypes that hold entities of the query are walked in ascending
//! order of their ids, and the entities of an archetype in storage order. An
//! entity of an archetype that is marked for change ticks is skipped unless it
//! passes one of the conjunctions about change ticks.
use crate::archematch::{
    lists, looked_at, spec_contains, spec_matches, spec_tick_matches, spec_within_tick,
    ArchematchIter, CheckTick,
};
use crate::dynamic_query::DynamicItem;
use crate::fetches::Fetches;
use crate::filters::{Filter, Filters};
use crate::state::{spec_get, DynamicState, Ticks};
use crate::store::{are_recorded, world_table, EntityCell};
use bevy_ecs::world::World;
use vstd::prelude::*;

verus! {

/// The entities of `cells` from the place `from` on that a walk hands out,
/// in the order of `cells`: every entity, but where `needs_check`, only those
/// that pass one of the conjunctions about change ticks.
pub open spec fn kept_cells(
    rows: Seq<Seq<Filter>>,
    needs_check: bool,
    cells: Seq<EntityCell>,
    from: int,
    ticks: Ticks,
) -> Seq<EntityCell>
    decreases cells.len() - from,
{
    if from < 0 || from >= cells.len() {
        Seq::empty()
    } else {
        let rest = kept_cells(rows, needs_check, cells, from + 1, ticks);
        if needs_check ==> spec_within_tick(rows, cells[from], ticks) {
            seq![cells[from]] + rest
        } else {
            rest
        }
    }
}

/// The entities of the archetype `id` in `world`; none if the store has no
/// such archetype.
pub open spec fn cells_of(world: Seq<Vec<EntityCell>>, id: u32) -> Seq<EntityCell> {
    if id < world.len() {
        world[id as int]@
    } else {
        Seq::empty()
    }
}

/// The entities that a walk over the archetypes `ids` hands out, from the
/// place `from` of `ids` on: archetype after archetype in the order of `ids`,
/// the entities of an archetype in the order of `world`. An archetype in
/// `tick_matches` has its entities checked for change ticks.
pub open spec fn kept_of_archetypes(
    rows: Seq<Seq<Filter>>,
    ids: Seq<u32>,
    tick_matches: Set<nat>,
    world: Seq<Vec<EntityCell>>,
    from: int,
    ticks: Ticks,
) -> Seq<EntityCell>
    decreases ids.len() - from,
{
    if from < 0 || from >= ids.len() {
        Seq::empty()
    } else {
        kept_cells(
            rows,
            tick_matches.contains(ids[from] as nat),
            cells_of(world, ids[from]),
            0,
            ticks,
        ) + kept_of_archetypes(rows, ids, tick_matches, world, from + 1, ticks)
    }
}

/// The rows of the entities `cells`, one per entity.
pub open spec fn rows_for(fetches: Fetches, cells: Seq<EntityCell>, read_only: bool) -> Seq<
    Seq<DynamicItem>,
> {
    cells.map_values(|cell: EntityCell| fetches.spec_row(cell, read_only))
}

/// A cursor over the rows of a query, with shared access only.
pub struct RoDynamicQueryIter<'w, 's> {
    entities: &'w [EntityCell],
    next: usize,
    world: &'w [Vec<EntityCell>],
    fetch: &'s Fetches,
    filter: &'s Filters,
    ids: ArchematchIter<'s>,
    check: CheckTick,
    ticks: Ticks,
    read_only: bool,
}

/// The row of `entity`, as a vector of its own.
fn fetch_buffer(fetches: &Fetches, entity: &EntityCell, read_only: bool) -> (row: Vec<DynamicItem>)
    ensures
        row@ == fetches.spec_row(*entity, read_only),
{
    let mut item_buffer: Vec<DynamicItem> = Vec::with_capacity(fetches.len());
    fetches.fetch_into(entity, read_only, &mut item_buffer);
    proof {
        assert(Seq::<DynamicItem>::empty() + fetches.spec_row(*entity, read_only)
            =~= fetches.spec_row(*entity, read_only));
    }
    item_buffer
}

impl<'w, 's> RoDynamicQueryIter<'w, 's> {
    /// The ids of the archetypes that the cursor walks, in ascending order.
    pub closed spec fn archetypes(&self) -> Seq<u32> {
        self.ids.ids()
    }

    /// The entities still to come, in the order in which they come: the
    /// rest of the archetype that the cursor is in, then the archetypes after
    /// it.
    pub closed spec fn pending(&self) -> Seq<EntityCell> {
        kept_cells(
            self.filter@,
            self.check.needs_check(),
            self.entities@,
            self.next as int,
            self.ticks,
        ) + kept_of_archetypes(
            self.filter@,
            self.ids.ids(),
            self.ids.tick_matches(),
            self.world@,
            self.ids.position() as int,
            self.ticks,
        )
    }

    /// The rows still to come: the rows of the entities still to come.
    pub open spec fn remaining(&self) -> Seq<Seq<DynamicItem>> {
        rows_for(self.spec_fetches(), self.pending(), self.is_read_only())
    }

    /// A cursor over the rows that `state` has for the entities of `world`:
    /// `world` holds the entities of each archetype, the archetypes by id.
    pub fn new(world: &'w [Vec<EntityCell>], ticks: Ticks, state: &'s DynamicState) -> (rows: Self)
        ensures
            lists(rows.archetypes(), state.cache().matches()),
            rows.spec_fetches() == state.spec_fetches(),
            rows.is_read_only(),
            rows.pending() == kept_of_archetypes(
                state.spec_filters()@,
                rows.archetypes(),
                state.cache().tick_matches(),
                world@,
                0,
                ticks,
            ),
    {
        Self::start(world, ticks, state, true)
    }

    /// A cursor over the rows that `state` has for the entities of `world`,
    /// with exclusive access or without.
    pub(crate) fn start(
        world: &'w [Vec<EntityCell>],
        ticks: Ticks,
        state: &'s DynamicState,
        read_only: bool,
    ) -> (rows: Self)
        ensures
            lists(rows.archetypes(), state.cache().matches()),
            rows.spec_fetches() == state.spec_fetches(),
            rows.is_read_only() == read_only,
            rows.pending() == kept_of_archetypes(
                state.spec_filters()@,
                rows.archetypes(),
                state.cache().tick_matches(),
                world@,
                0,
                ticks,
            ),
    {
        let (fetch, filter, cache) = state.parts();
        let entities: &'w [EntityCell] = vstd::slice::slice_subrange(world_entities(world), 0, 0);
        let rows = RoDynamicQueryIter {
            ids: cache.iter(),
            check: CheckTick::default(),
            filter,
            fetch,
            entities,
            next: 0,
            world,
            ticks,
            read_only,
        };
        proof {
            let nothing = kept_cells(filter@, rows.check.needs_check(), rows.entities@, 0, ticks);
            assert(nothing =~= Seq::empty());
            assert(rows.pending() =~= kept_of_archetypes(
                filter@,
                rows.ids.ids(),
                rows.ids.tick_matches(),
                world@,
                0,
                ticks,
            ));
        }
        rows
    }

    /// What the query fetches.
    pub closed spec fn spec_fetches(&self) -> Fetches {
        *self.fetch
    }

    /// Whether exclusive access is handed out as shared access.
    pub closed spec fn is_read_only(&self) -> bool {
        self.read_only
    }

    /// Get next entity.
    ///
    /// Advances `entities` and the cursor over the archetypes as much as
    /// necessary to get to the next entity that belongs to the query.
    ///
    /// Returns `None` if all entities of the matched archetypes are exhausted.
    pub fn next_entity(&mut self) -> (found: Option<&'w EntityCell>)
        ensures
            final(self).spec_fetches() == old(self).spec_fetches(),
            final(self).is_read_only() == old(self).is_read_only(),
            final(self).archetypes() == old(self).archetypes(),
            found is None ==> old(self).pending().len() == 0 && final(self).pending().len() == 0,
            found matches Some(entity) ==> old(self).pending().len() > 0
                && *entity == old(self).pending()[0]
                && final(self).pending() == old(self).pending().skip(1),
    {
        let ghost before = old(self).pending();
        loop
            invariant
                self.fetch == old(self).fetch,
                self.filter == old(self).filter,
                self.world == old(self).world,
                self.ticks == old(self).ticks,
                self.read_only == old(self).read_only,
                self.ids.ids() == old(self).ids.ids(),
                self.ids.tick_matches() == old(self).ids.tick_matches(),
                self.pending() == before,
                before == old(self).pending(),
            decreases
                    self.ids.ids().len() - self.ids.position(),
                    self.entities@.len() - self.next,
        {
            let ghost here = self.pending();
            if self.next < self.entities.len() {
                let entity: &'w EntityCell = &self.entities[self.next];
                let ghost rest = kept_of_archetypes(
                    self.filter@,
                    self.ids.ids(),
                    self.ids.tick_matches(),
                    self.world@,
                    self.ids.position() as int,
                    self.ticks,
                );
                let ghost after = kept_cells(
                    self.filter@,
                    self.check.needs_check(),
                    self.entities@,
                    self.next + 1,
                    self.ticks,
                );
                self.next = self.next + 1;
                if self.check.within_tick(self.filter, self.ticks, entity) {
                    proof {
                        assert((seq![*entity] + after) + rest =~= seq![*entity] + (after + rest));
                        assert((seq![*entity] + (after + rest)).skip(1) =~= after + rest);
                    }
                    return Some(entity);
                }
            } else {
                let ghost at = self.ids.position() as int;
                let ghost cells_left = kept_cells(
                    self.filter@,
                    self.check.needs_check(),
                    self.entities@,
                    self.next as int,
                    self.ticks,
                );
                proof {
                    assert(cells_left =~= Seq::empty());
                }
                match self.ids.next() {
                    Some((next_archetype, check)) => {
                        let index: usize = next_archetype.0 as usize;
                        self.check = check;
                        self.next = 0;
                        if index < self.world.len() {
                            self.entities = self.world[index].as_slice();
                        } else {
                            self.entities = vstd::slice::slice_subrange(self.entities, 0, 0);
                        }
                        proof {
                            assert(self.entities@ =~= cells_of(self.world@, next_archetype.0));
                            assert(Seq::<EntityCell>::empty() + self.pending() =~= self.pending());
                        }
                    },
                    None => {
                        proof {
                            assert(here =~= Seq::empty());
                        }
                        return None;
                    },
                }
            }
        }
    }

    /// The next row, or `None` after the last one: the row of the first of
    /// the entities still to come.
    pub fn next(&mut self) -> (row: Option<Vec<DynamicItem>>)
        ensures
            final(self).spec_fetches() == old(self).spec_fetches(),
            final(self).is_read_only() == old(self).is_read_only(),
            final(self).archetypes() == old(self).archetypes(),
            old(self).pending().len() == 0 ==> row is None && final(self).pending().len() == 0,
            old(self).pending().len() > 0 ==> row is Some
                && row.unwrap()@ == old(self).spec_fetches().spec_row(
                old(self).pending()[0],
                old(self).is_read_only(),
            ) && final(self).pending() == old(self).pending().skip(1),
            old(self).remaining().len() > 0 ==> row.unwrap()@ == old(self).remaining()[0]
                && final(self).remaining() == old(self).remaining().skip(1),
    {
        match self.next_entity() {
            Some(entity) => {
                let row: Vec<DynamicItem> = fetch_buffer(self.fetch, entity, self.read_only);
                proof {
                    assert(self.remaining() =~= old(self).remaining().skip(1));
                }
                Some(row)
            },
            None => None,
        }
    }
}

/// The entities of the first archetype of `world`, or no entities.
fn world_entities<'w>(world: &'w [Vec<EntityCell>]) -> (entities: &'w [EntityCell])
    ensures
        entities@.len() == 0 || (world@.len() > 0 && entities@ == world@[0]@),
{
    if world.len() > 0 {
        world[0].as_slice()
    } else {
        let nothing: &'w [EntityCell] = &[];
        nothing
    }
}

/// A cursor over the rows of a query, with exclusive access where the query
/// asks for it.
pub struct DynamicQueryIter<'w, 's>(RoDynamicQueryIter<'w, 's>);

impl<'w, 's> DynamicQueryIter<'w, 's> {
    /// The ids of the archetypes that the cursor walks, in ascending order.
    pub closed spec fn archetypes(&self) -> Seq<u32> {
        self.0.archetypes()
    }

    /// What the query fetches.
    pub closed spec fn spec_fetches(&self) -> Fetches {
        self.0.spec_fetches()
    }

    /// Whether exclusive access is handed out as shared access.
    pub closed spec fn is_read_only(&self) -> bool {
        self.0.is_read_only()
    }

    /// The entities still to come, in the order in which they come.
    pub closed spec fn pending(&self) -> Seq<EntityCell> {
        self.0.pending()
    }

    /// The rows still to come: the rows of the entities still to come.
    pub open spec fn remaining(&self) -> Seq<Seq<DynamicItem>> {
        rows_for(self.spec_fetches(), self.pending(), self.is_read_only())
    }

    /// A cursor over the rows that `state` has for the entities of `world`:
    /// `world` holds the entities of each archetype, the archetypes by id.
    pub fn new(world: &'w [Vec<EntityCell>], ticks: Ticks, state: &'s DynamicState) -> (rows: Self)
        ensures
            lists(rows.archetypes(), state.cache().matches()),
            rows.spec_fetches() == state.spec_fetches(),
            !rows.is_read_only(),
            rows.pending() == kept_of_archetypes(
                state.spec_filters()@,
                rows.archetypes(),
                state.cache().tick_matches(),
                world@,
                0,
                ticks,
            ),
    {
        DynamicQueryIter(RoDynamicQueryIter::start(world, ticks, state, false))
    }

    /// The next entity that belongs to the query, or `None` after the last
    /// one.
    pub fn next_entity(&mut self) -> (found: Option<&'w EntityCell>)
        ensures
            final(self).spec_fetches() == old(self).spec_fetches(),
            final(self).is_read_only() == old(self).is_read_only(),
            final(self).archetypes() == old(self).archetypes(),
            found is None ==> old(self).pending().len() == 0 && final(self).pending().len() == 0,
            found matches Some(entity) ==> old(self).pending().len() > 0
                && *entity == old(self).pending()[0]
                && final(self).pending() == old(self).pending().skip(1),
    {
        self.0.next_entity()
    }

    /// The next row, or `None` after the last one: the row of the first of
    /// the entities still to come.
    pub fn next(&mut self) -> (row: Option<Vec<DynamicItem>>)
        ensures
            final(self).spec_fetches() == old(self).spec_fetches(),
            final(self).is_read_only() == old(self).is_read_only(),
            final(self).archetypes() == old(self).archetypes(),
            old(self).pending().len() == 0 ==> row is None && final(self).pending().len() == 0,
            old(self).pending().len() > 0 ==> row is Some
                && row.unwrap()@ == old(self).spec_fetches().spec_row(
                old(self).pending()[0],
                old(self).is_read_only(),
            ) && final(self).pending() == old(self).pending().skip(1),
            old(self).remaining().len() > 0 ==> row.unwrap()@ == old(self).remaining()[0]
                && final(self).remaining() == old(self).remaining().skip(1),
    {
        let row: Option<Vec<DynamicItem>> = self.0.next();
        proof {
            if old(self).pending().len() > 0 {
                assert(self.remaining() =~= old(self).remaining().skip(1));
            }
        }
        row
    }
}

/// A walk and `get` agree: an entity of an archetype that can hold entities
/// of the query is handed out by the walk exactly when `get` has a row for it,
/// and the row of `get` is the row of the walk.
pub proof fn lemma_walk_agrees_with_get(
    state: DynamicState,
    cells: Seq<EntityCell>,
    at: int,
    ticks: Ticks,
    read_only: bool,
)
    requires
        0 <= at < cells.len(),
        state.cache().matches().contains(cells[at].archetype.0 as nat),
    ensures
        kept_cells(
            state.spec_filters()@,
            state.cache().tick_matches().contains(cells[at].archetype.0 as nat),
            cells,
            at,
            ticks,
        ) == (match spec_get(
            state.spec_fetches(),
            state.spec_filters(),
            state.cache(),
            ticks,
            cells[at].id,
            Some(cells[at]),
            read_only,
        ) {
            Ok(_) => seq![cells[at]],
            Err(_) => Seq::empty(),
        }) + kept_cells(
            state.spec_filters()@,
            state.cache().tick_matches().contains(cells[at].archetype.0 as nat),
            cells,
            at + 1,
            ticks,
        ),
        spec_get(
            state.spec_fetches(),
            state.spec_filters(),
            state.cache(),
            ticks,
            cells[at].id,
            Some(cells[at]),
            read_only,
        ) matches Ok(row) ==> rows_for(state.spec_fetches(), seq![cells[at]], read_only) == seq![
            row,
        ],
{
    let rest = kept_cells(
        state.spec_filters()@,
        state.cache().tick_matches().contains(cells[at].archetype.0 as nat),
        cells,
        at + 1,
        ticks,
    );
    assert(Seq::<EntityCell>::empty() + rest =~= rest);
    assert(rows_for(state.spec_fetches(), seq![cells[at]], read_only) =~= seq![
        state.spec_fetches().spec_row(cells[at], read_only),
    ]);
}

/// The entities of the archetypes `ids` from the place `from` of `ids` on,
/// all of them: archetype after archetype, in the order of `world`.
pub open spec fn all_of_archetypes(ids: Seq<u32>, world: Seq<Vec<EntityCell>>, from: int) -> Seq<
    EntityCell,
>
    decreases ids.len() - from,
{
    if from < 0 || from >= ids.len() {
        Seq::empty()
    } else {
        cells_of(world, ids[from]) + all_of_archetypes(ids, world, from + 1)
    }
}

/// Without a check for change ticks, a walk hands out every entity.
proof fn lemma_kept_without_check(
    rows: Seq<Seq<Filter>>,
    cells: Seq<EntityCell>,
    from: int,
    ticks: Ticks,
)
    requires
        0 <= from <= cells.len(),
    ensures
        kept_cells(rows, false, cells, from, ticks) == cells.skip(from),
    decreases cells.len() - from,
{
    if from < cells.len() {
        lemma_kept_without_check(rows, cells, from + 1, ticks);
        assert(seq![cells[from]] + cells.skip(from + 1) =~= cells.skip(from));
    } else {
        assert(cells.skip(from) =~= Seq::<EntityCell>::empty());
    }
}

/// A walk over archetypes of which none is marked for change ticks hands
/// out every entity of every archetype.
pub proof fn lemma_walk_without_checks(
    rows: Seq<Seq<Filter>>,
    ids: Seq<u32>,
    tick_matches: Set<nat>,
    world: Seq<Vec<EntityCell>>,
    from: int,
    ticks: Ticks,
)
    requires
        0 <= from <= ids.len(),
        forall|i: int| from <= i < ids.len() ==> !tick_matches.contains(#[trigger] ids[i] as nat),
    ensures
        kept_of_archetypes(rows, ids, tick_matches, world, from, ticks) == all_of_archetypes(
            ids,
            world,
            from,
        ),
    decreases ids.len() - from,
{
    if from < ids.len() {
        lemma_walk_without_checks(rows, ids, tick_matches, world, from + 1, ticks);
        let cells = cells_of(world, ids[from]);
        lemma_kept_without_check(rows, cells, 0, ticks);
        assert(!tick_matches.contains(ids[from] as nat));
        assert(cells.skip(0) =~= cells);
    }
}

/// A query without conjunctions keeps every entity that has the required
/// components. When its state agrees with the archetypes `table` of a store,
/// the archetypes of a walk are those of `table` that have every required
/// component, and the walk hands out every entity of each of them.
pub proof fn lemma_walk_without_conjunctions(
    state: DynamicState,
    table: Seq<Seq<usize>>,
    ids: Seq<u32>,
    world: Seq<Vec<EntityCell>>,
    ticks: Ticks,
)
    requires
        state.spec_filters()@.len() == 0,
        state.covers(table),
        lists(ids, state.cache().matches()),
    ensures
        kept_of_archetypes(
            state.spec_filters()@,
            ids,
            state.cache().tick_matches(),
            world,
            0,
            ticks,
        ) == all_of_archetypes(ids, world, 0),
        forall|id: nat|
            id < state.cache().last_seen() ==> (state.cache().matches().contains(id)
                <==> state.spec_fetches().spec_all_included(#[trigger] table[id as int])),
        forall|i: int| 0 <= i < ids.len() ==> #[trigger] ids[i] < state.cache().last_seen(),
{
    let cache = state.cache();
    assert forall|i: int| 0 <= i < ids.len() implies #[trigger] ids[i] < cache.last_seen()
        && !cache.tick_matches().contains(ids[i] as nat) by {
        let id = ids[i] as nat;
        assert(cache.matches().contains(id));
        if id >= cache.last_seen() {
            assert(!cache.matches().contains(id));
        }
        assert(cache.tick_matches().contains(id) <==> spec_tick_matches(
            state.spec_fetches(),
            state.spec_filters()@,
            table[id as int],
        ));
    }
    lemma_walk_without_checks(
        state.spec_filters()@,
        ids,
        cache.tick_matches(),
        world,
        0,
        ticks,
    );
    assert forall|id: nat| id < cache.last_seen() implies (cache.matches().contains(id)
        <==> state.spec_fetches().spec_all_included(#[trigger] table[id as int])) by {
        assert(cache.matches().contains(id) <==> spec_matches(
            state.spec_fetches(),
            state.spec_filters()@,
            table[id as int],
        ));
    }
}

/// Whether `get` has a row for an entity: its archetype can hold entities
/// of the query, and where the archetype is marked for change ticks, the
/// entity passes one of the conjunctions about change ticks.
pub open spec fn belongs(
    matches: Set<nat>,
    tick_matches: Set<nat>,
    rows: Seq<Seq<Filter>>,
    ticks: Ticks,
) -> spec_fn(EntityCell) -> bool {
    |cell: EntityCell| spec_contains(matches, tick_matches, rows, cell, ticks)
}

/// Every entity of `world` stands under its own archetype.
pub open spec fn by_archetype(world: Seq<Vec<EntityCell>>) -> bool {
    forall|id: int, k: int|
        0 <= id < world.len() && 0 <= k < world[id]@.len()
            ==> (#[trigger] world[id]@[k]).archetype.0 == id
}

/// A sequence of one item, filtered, is that item or nothing.
proof fn lemma_filter_one<A>(item: A, keep: spec_fn(A) -> bool)
    ensures
        seq![item].filter(keep) == if keep(item) {
            seq![item]
        } else {
            Seq::empty()
        },
{
    reveal_with_fuel(Seq::filter, 2);
    assert(seq![item].drop_last() =~= Seq::<A>::empty());
    assert(Seq::<A>::empty().push(item) =~= seq![item]);
}

/// Within one archetype, a walk hands out the entities that `keep` keeps,
/// when `keep` decides as the check for change ticks does.
proof fn lemma_kept_cells_selected(
    rows: Seq<Seq<Filter>>,
    needs_check: bool,
    cells: Seq<EntityCell>,
    from: int,
    ticks: Ticks,
    keep: spec_fn(EntityCell) -> bool,
)
    requires
        0 <= from <= cells.len(),
        forall|k: int|
            from <= k < cells.len() ==> keep(#[trigger] cells[k]) == (needs_check
                ==> spec_within_tick(rows, cells[k], ticks)),
    ensures
        kept_cells(rows, needs_check, cells, from, ticks) == cells.skip(from).filter(keep),
    decreases cells.len() - from,
{
    if from < cells.len() {
        lemma_kept_cells_selected(rows, needs_check, cells, from + 1, ticks, keep);
        let first = seq![cells[from]];
        let rest = cells.skip(from + 1);
        assert(first + rest =~= cells.skip(from));
        Seq::filter_distributes_over_add(first, rest, keep);
        lemma_filter_one(cells[from], keep);
        assert(Seq::<EntityCell>::empty() + rest.filter(keep) =~= rest.filter(keep));
    } else {
        reveal_with_fuel(Seq::filter, 1);
        assert(cells.skip(from) =~= Seq::<EntityCell>::empty());
    }
}

/// Over the rest of the archetypes, a walk hands out the entities for which
/// `get` has a row.
proof fn lemma_walk_selected_from(
    rows: Seq<Seq<Filter>>,
    ids: Seq<u32>,
    matches: Set<nat>,
    tick_matches: Set<nat>,
    world: Seq<Vec<EntityCell>>,
    from: int,
    ticks: Ticks,
)
    requires
        0 <= from <= ids.len(),
        lists(ids, matches),
        by_archetype(world),
    ensures
        kept_of_archetypes(rows, ids, tick_matches, world, from, ticks) == all_of_archetypes(
            ids,
            world,
            from,
        ).filter(belongs(matches, tick_matches, rows, ticks)),
    decreases ids.len() - from,
{
    let keep = belongs(matches, tick_matches, rows, ticks);
    if from < ids.len() {
        lemma_walk_selected_from(rows, ids, matches, tick_matches, world, from + 1, ticks);
        let cells = cells_of(world, ids[from]);
        let needs_check = tick_matches.contains(ids[from] as nat);
        assert(matches.contains(ids[from] as nat));
        assert forall|k: int| 0 <= k < cells.len() implies keep(#[trigger] cells[k]) == (needs_check
            ==> spec_within_tick(rows, cells[k], ticks)) by {
            assert(world[ids[from] as int]@[k].archetype.0 == ids[from]);
        }
        lemma_kept_cells_selected(rows, needs_check, cells, 0, ticks, keep);
        assert(cells.skip(0) =~= cells);
        Seq::filter_distributes_over_add(cells, all_of_archetypes(ids, world, from + 1), keep);
    } else {
        reveal_with_fuel(Seq::filter, 1);
    }
}

/// A walk hands out, archetype after archetype and in storage order, exactly
/// the entities of the archetypes that can hold entities of the query for
/// which `get` has a row: those of an archetype that is not marked for change
/// ticks, and of the others those that pass a conjunction about change ticks.
pub proof fn lemma_walk_is_selection(
    rows: Seq<Seq<Filter>>,
    ids: Seq<u32>,
    matches: Set<nat>,
    tick_matches: Set<nat>,
    world: Seq<Vec<EntityCell>>,
    ticks: Ticks,
)
    requires
        lists(ids, matches),
        by_archetype(world),
    ensures
        kept_of_archetypes(rows, ids, tick_matches, world, 0, ticks) == all_of_archetypes(
            ids,
            world,
            0,
        ).filter(belongs(matches, tick_matches, rows, ticks)),
{
    lemma_walk_selected_from(rows, ids, matches, tick_matches, world, 0, ticks);
}

/// A query without conjunctions, walked over a store that its state has
/// looked at: the archetypes of the store that have every required component
/// are those that the walk goes through, and the walk hands out every entity
/// of each of them as the store holds them, in storage order. `cells` is what
/// the state has read of the store.
pub proof fn lemma_walk_of_store(
    state: DynamicState,
    world: World,
    cells: Seq<Vec<EntityCell>>,
    ids: Seq<u32>,
    ticks: Ticks,
)
    requires
        state.spec_filters()@.len() == 0,
        state.covers(looked_at(world_table(world))),
        state.cache().last_seen() == looked_at(world_table(world)).len(),
        lists(ids, state.cache().matches()),
        cells.len() == looked_at(world_table(world)).len(),
        forall|id: int|
            0 <= id < cells.len() ==> if state.cache().matches().contains(id as nat) {
                are_recorded((#[trigger] cells[id])@, world, id)
            } else {
                cells[id]@.len() == 0
            },
    ensures
        forall|id: nat|
            id < looked_at(world_table(world)).len() ==> (state.cache().matches().contains(id)
                <==> state.spec_fetches().spec_all_included(
                #[trigger] looked_at(world_table(world))[id as int],
            )),
        kept_of_archetypes(
            state.spec_filters()@,
            ids,
            state.cache().tick_matches(),
            cells,
            0,
            ticks,
        ) == all_of_archetypes(ids, cells, 0),
        forall|i: int|
            0 <= i < ids.len() ==> are_recorded(
                cells_of(cells, #[trigger] ids[i]),
                world,
                ids[i] as int,
            ),
{
    lemma_walk_without_conjunctions(state, looked_at(world_table(world)), ids, cells, ticks);
    assert forall|i: int| 0 <= i < ids.len() implies are_recorded(
        cells_of(cells, #[trigger] ids[i]),
        world,
        ids[i] as int,
    ) by {
        assert(state.cache().matches().contains(ids[i] as nat));
        assert(ids[i] < state.cache().last_seen());
        assert(are_recorded(cells[ids[i] as int]@, world, ids[i] as int));
    }
}

} // verus!
