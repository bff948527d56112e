//! The cache of the archetypes that hold entities of a query.
//!
//! Archetypes are only ever added to a store, so the cache is extended and
//! never recomputed: every archetype is evaluated once, when it is first
//! seen. Two bit sets record the outcome, both indexed by archetype id.
use crate::bits::{bits_clone, bits_enable, bits_new, bits_on, bits_ones, bits_test, Bits};
use crate::fetches::Fetches;
use crate::filters::{
    lemma_filters_rows, row_has_tick, row_in_filter, row_within_tick, Conjunctions, Filter,
    Filters,
};
use crate::state::Ticks;
use crate::store::{
    archetype_components, archetype_count, archetype_table, ArchetypeId, EntityCell,
};
use bevy_ecs::archetype::Archetypes;
use vstd::prelude::*;

verus! {

/// An archetype with the components `ids` can hold entities of the query:
/// it has every required component and passes one of the conjunctions.
/// Without any conjunction, the required components decide alone.
pub open spec fn spec_matches(fetches: Fetches, rows: Seq<Seq<Filter>>, ids: Seq<usize>) -> bool {
    fetches.spec_all_included(ids) && (rows.len() == 0 || exists|c: int|
        0 <= c < rows.len() && row_in_filter(#[trigger] rows[c], ids))
}

/// An archetype with the components `ids` can hold entities of the query,
/// and one of the conjunctions that it passes has an atom about change ticks:
/// its entities have to be checked one by one.
pub open spec fn spec_tick_matches(
    fetches: Fetches,
    rows: Seq<Seq<Filter>>,
    ids: Seq<usize>,
) -> bool {
    fetches.spec_all_included(ids) && exists|c: int|
        0 <= c < rows.len() && row_in_filter(#[trigger] rows[c], ids) && row_has_tick(rows[c])
}

/// The entity passes one of the conjunctions that have an atom about change
/// ticks, change ticks included.
pub open spec fn spec_within_tick(
    rows: Seq<Seq<Filter>>,
    entity: EntityCell,
    ticks: Ticks,
) -> bool {
    exists|c: int|
        0 <= c < rows.len() && row_has_tick(#[trigger] rows[c]) && row_within_tick(
            rows[c],
            entity,
            ticks,
        )
}

/// Evaluates the query on one archetype with the components `components`:
/// whether it can hold entities of the query, and whether those have to be
/// checked for change ticks.
pub fn evaluate(fetches: &Fetches, filters: &Filters, components: &[usize]) -> (outcome: (
    bool,
    bool,
))
    ensures
        outcome.0 == spec_matches(*fetches, filters@, components@),
        outcome.1 == spec_tick_matches(*fetches, filters@, components@),
{
    proof {
        use_type_invariant(filters);
        lemma_filters_rows(*filters);
    }
    if filters.is_empty() {
        let included: bool = fetches.all_included(components);
        proof {
            if filters@.len() > 0 {
                assert(filters@[0].len() == 0);
                assert(row_in_filter(filters@[0], components@));
            }
            assert forall|c: int| 0 <= c < filters@.len() implies !row_has_tick(
                #[trigger] filters@[c],
            ) by {
                assert(filters@[c].len() == 0);
            }
        }
        return (included, false);
    }
    let mut matches: bool = false;
    let mut tick: bool = false;
    let mut conjunctions: Conjunctions<'_> = filters.conjunctions();
    loop
        invariant
            conjunctions.rows() == filters@,
            conjunctions.position() <= filters@.len(),
            filters@.len() > 0,
            matches == (fetches.spec_all_included(components@) && exists|c: int|
                0 <= c < conjunctions.position() && row_in_filter(
                    #[trigger] filters@[c],
                    components@,
                )),
            tick == (fetches.spec_all_included(components@) && exists|c: int|
                0 <= c < conjunctions.position() && row_in_filter(
                    #[trigger] filters@[c],
                    components@,
                ) && row_has_tick(filters@[c])),
        ensures
            matches == spec_matches(*fetches, filters@, components@),
            tick == spec_tick_matches(*fetches, filters@, components@),
        decreases filters@.len() - conjunctions.position(),
    {
        let ghost at = conjunctions.position() as int;
        match conjunctions.next() {
            Some(conjunction) => {
                let included: bool = conjunction.includes(fetches, components);
                let has_tick: bool = conjunction.has_tick_filter();
                proof {
                    if matches {
                        let c = choose|c: int|
                            0 <= c < at && row_in_filter(#[trigger] filters@[c], components@);
                        assert(0 <= c < at + 1);
                    }
                    if tick {
                        let c = choose|c: int|
                            0 <= c < at && row_in_filter(#[trigger] filters@[c], components@)
                                && row_has_tick(filters@[c]);
                        assert(0 <= c < at + 1);
                    }
                    if included {
                        assert(row_in_filter(filters@[at], components@));
                    }
                }
                matches = matches || included;
                tick = tick || (included && has_tick);
            },
            None => {
                break ;
            },
        }
    }
    (matches, tick)
}

/// Which archetypes hold entities of a query, as far as the store has been
/// looked at.
#[derive(Debug)]
pub struct MatchedArchetypes {
    ids: Bits,
    tick_matches: Bits,
    last_gen: usize,
}

impl MatchedArchetypes {
    /// The ids of the archetypes that can hold entities of the query.
    pub closed spec fn matches(&self) -> Set<nat> {
        bits_on(self.ids)
    }

    /// The ids of the archetypes whose entities have to be checked for change
    /// ticks one by one.
    pub closed spec fn tick_matches(&self) -> Set<nat> {
        bits_on(self.tick_matches)
    }

    /// How many archetypes of the store have been looked at.
    pub closed spec fn last_seen(&self) -> nat {
        self.last_gen as nat
    }

    /// Archetype ids are 32-bit numbers, and entities are only checked for
    /// change ticks in archetypes that can hold them.
    #[verifier::type_invariant]
    pub closed spec fn wf(&self) -> bool {
        &&& forall|id: nat| bits_on(self.ids).contains(id) ==> id <= u32::MAX
        &&& forall|id: nat|
            bits_on(self.tick_matches).contains(id) ==> bits_on(self.ids).contains(id)
    }

    /// The cache agrees with an evaluation from scratch of the query on the
    /// archetypes of `table`: the first `last_seen()` archetypes have been
    /// looked at, each is marked as the query evaluates on it, and no archetype
    /// after them is marked.
    pub open spec fn covers(
        &self,
        fetches: Fetches,
        filters: Filters,
        table: Seq<Seq<usize>>,
    ) -> bool {
        &&& self.last_seen() <= table.len()
        &&& forall|id: nat|
            id < self.last_seen() ==> (self.matches().contains(id) <==> spec_matches(
                fetches,
                filters@,
                #[trigger] table[id as int],
            ))
        &&& forall|id: nat|
            id < self.last_seen() ==> (self.tick_matches().contains(id) <==> spec_tick_matches(
                fetches,
                filters@,
                #[trigger] table[id as int],
            ))
        &&& forall|id: nat| id >= self.last_seen() ==> !self.matches().contains(id)
    }

    /// A cache that has looked at no archetype.
    pub fn empty() -> (cache: Self)
        ensures
            cache.matches() == Set::<nat>::empty(),
            cache.tick_matches() == Set::<nat>::empty(),
            cache.last_seen() == 0,
    {
        MatchedArchetypes { ids: bits_new(), tick_matches: bits_new(), last_gen: 0 }
    }

    /// Looks at the next archetype of the store, whose components are
    /// `components`: its id is the number of archetypes looked at so far.
    ///
    /// Archetype ids are 32-bit numbers, so at most `u32::MAX` archetypes can
    /// be looked at.
    pub fn add_archetype(&mut self, fetches: &Fetches, filters: &Filters, components: &[usize])
        requires
            old(self).last_seen() < u32::MAX,
        ensures
            final(self).last_seen() == old(self).last_seen() + 1,
            final(self).matches() == if spec_matches(*fetches, filters@, components@) {
                old(self).matches().insert(old(self).last_seen())
            } else {
                old(self).matches()
            },
            final(self).tick_matches() == if spec_tick_matches(*fetches, filters@, components@) {
                old(self).tick_matches().insert(old(self).last_seen())
            } else {
                old(self).tick_matches()
            },
    {
        proof {
            use_type_invariant(&*self);
        }
        let (matches, ticks) = evaluate(fetches, filters, components);
        let mut taken: Self = Self::empty();
        std::mem::swap(self, &mut taken);
        let MatchedArchetypes { mut ids, mut tick_matches, last_gen } = taken;
        if matches {
            bits_enable(&mut ids, last_gen);
        }
        if ticks {
            bits_enable(&mut tick_matches, last_gen);
        }
        *self = MatchedArchetypes { ids, tick_matches, last_gen: last_gen + 1 };
    }

    /// A cache that has looked at every archetype of the store.
    pub fn new(fetches: &Fetches, filters: &Filters, archetypes: &Archetypes) -> (cache: Self)
        ensures
            cache.covers(*fetches, *filters, looked_at(archetype_table(*archetypes))),
            cache.last_seen() == looked_at(archetype_table(*archetypes)).len(),
    {
        let mut this: Self = Self::empty();
        this.add_archetypes(fetches, filters, archetypes);
        this
    }

    /// Looks at the archetypes that the store got since the cache last looked
    /// at it, and marks those that can hold entities of the query.
    ///
    /// A cache that agreed with the store before agrees with it afterwards,
    /// and has looked at all of it. When the store has no new archetype,
    /// nothing changes.
    pub fn add_archetypes(&mut self, fetches: &Fetches, filters: &Filters, archetypes: &Archetypes)
        ensures
            extends(
                *old(self),
                *final(self),
                *fetches,
                *filters,
                looked_at(archetype_table(*archetypes)),
            ),
            old(self).covers(*fetches, *filters, looked_at(archetype_table(*archetypes)))
                ==> final(self).covers(*fetches, *filters, looked_at(archetype_table(*archetypes))),
            old(self).last_seen() >= looked_at(archetype_table(*archetypes)).len() ==> {
                &&& final(self).matches() == old(self).matches()
                &&& final(self).tick_matches() == old(self).tick_matches()
                &&& final(self).last_seen() == old(self).last_seen()
            },
    {
        proof {
            use_type_invariant(&*self);
        }
        let count: usize = archetype_count(archetypes);
        let ghost table = looked_at(archetype_table(*archetypes));
        let ghost before = *old(self);
        loop
            invariant
                count == archetype_table(*archetypes).len(),
                table == looked_at(archetype_table(*archetypes)),
                before.last_seen() <= self.last_seen(),
                self.last_seen() == before.last_seen() || self.last_seen() <= table.len(),
                forall|id: nat|
                    self.matches().contains(id) <==> before.matches().contains(id) || (
                    before.last_seen() <= id < self.last_seen() && spec_matches(
                        *fetches,
                        filters@,
                        table[id as int],
                    )),
                forall|id: nat|
                    self.tick_matches().contains(id) <==> before.tick_matches().contains(id) || (
                    before.last_seen() <= id < self.last_seen() && spec_tick_matches(
                        *fetches,
                        filters@,
                        table[id as int],
                    )),
            ensures
                extends(before, *self, *fetches, *filters, table),
            decreases count - self.last_seen(),
        {
            let next: usize = self.seen();
            if next >= count || next >= u32::MAX as usize {
                break ;
            }
            let components: Vec<usize> = archetype_components(archetypes, next);
            let ghost earlier = *self;
            self.add_archetype(fetches, filters, components.as_slice());
            proof {
                assert(components@ == table[next as int]);
                assert forall|id: nat|
                    self.matches().contains(id) <==> before.matches().contains(id) || (
                    before.last_seen() <= id < self.last_seen() && spec_matches(
                        *fetches,
                        filters@,
                        table[id as int],
                    )) by {
                    if id != next {
                        assert(self.matches().contains(id) == earlier.matches().contains(id));
                    }
                }
                assert forall|id: nat|
                    self.tick_matches().contains(id) <==> before.tick_matches().contains(id) || (
                    before.last_seen() <= id < self.last_seen() && spec_tick_matches(
                        *fetches,
                        filters@,
                        table[id as int],
                    )) by {
                    if id != next {
                        assert(self.tick_matches().contains(id) == earlier.tick_matches().contains(
                            id,
                        ));
                    }
                }
            }
        }
        proof {
            if before.covers(*fetches, *filters, table) {
                lemma_extends_covers(before, *self, *fetches, *filters, table);
            }
            if before.last_seen() >= table.len() {
                lemma_extends_nothing_new(before, *self, *fetches, *filters, table);
            }
        }
    }

    /// The ids of the archetypes that can hold entities of the query, in
    /// ascending order.
    pub fn matched(&self) -> (ids: Vec<u32>)
        ensures
            lists(ids@, self.matches()),
    {
        proof {
            use_type_invariant(self);
        }
        bits_ones(&self.ids)
    }

    /// How many archetypes of the store have been looked at.
    pub fn seen(&self) -> (count: usize)
        ensures
            count == self.last_seen(),
    {
        self.last_gen
    }
}

/// The archetypes of `table` that a cache can look at: all of them, up to the
/// `u32::MAX` that 32-bit archetype ids allow.
pub open spec fn looked_at(table: Seq<Seq<usize>>) -> Seq<Seq<usize>> {
    if table.len() <= u32::MAX {
        table
    } else {
        table.take(u32::MAX as int)
    }
}

/// Whether the entity passes one of the conjunctions of `filters` that have
/// an atom about change ticks, change ticks included.
pub fn within_tick(filters: &Filters, ticks: Ticks, entity: &EntityCell) -> (within: bool)
    ensures
        within == spec_within_tick(filters@, *entity, ticks),
{
    let ids: Vec<usize> = entity.component_indices();
    let mut conjunctions: Conjunctions<'_> = filters.conjunctions();
    loop
        invariant
            ids@ == entity.component_ids(),
            conjunctions.rows() == filters@,
            conjunctions.position() <= filters@.len(),
            forall|c: int|
                0 <= c < conjunctions.position() ==> !(row_has_tick(#[trigger] filters@[c])
                    && row_within_tick(filters@[c], *entity, ticks)),
        ensures
            conjunctions.position() >= filters@.len(),
            forall|c: int|
                0 <= c < filters@.len() ==> !(row_has_tick(#[trigger] filters@[c])
                    && row_within_tick(filters@[c], *entity, ticks)),
        decreases filters@.len() - conjunctions.position(),
    {
        let ghost at = conjunctions.position() as int;
        match conjunctions.next() {
            Some(conjunction) => {
                if conjunction.has_tick_filter() && conjunction.in_filter(ids.as_slice())
                    && conjunction.within_tick(ticks, entity) {
                    assert(row_has_tick(filters@[at]) && row_within_tick(
                        filters@[at],
                        *entity,
                        ticks,
                    ));
                    return true;
                }
            },
            None => {
                break ;
            },
        }
    }
    false
}

/// Whether an entity of an archetype in `matches` belongs to the query: in
/// an archetype of `tick_matches` it has to pass one of the conjunctions
/// about change ticks as well.
pub open spec fn spec_contains(
    matches: Set<nat>,
    tick_matches: Set<nat>,
    rows: Seq<Seq<Filter>>,
    entity: EntityCell,
    ticks: Ticks,
) -> bool {
    &&& matches.contains(entity.archetype.0 as nat)
    &&& tick_matches.contains(entity.archetype.0 as nat) ==> spec_within_tick(rows, entity, ticks)
}

/// The cache together with the filters, to decide on single entities.
pub struct ArchematchGet<'a> {
    ids: &'a Bits,
    tick_matches: &'a Bits,
    filters: &'a Filters,
}

impl<'a> ArchematchGet<'a> {
    /// The ids of the archetypes that can hold entities of the query.
    pub closed spec fn matches(&self) -> Set<nat> {
        bits_on(*self.ids)
    }

    /// The ids of the archetypes whose entities have to be checked for change
    /// ticks.
    pub closed spec fn tick_matches(&self) -> Set<nat> {
        bits_on(*self.tick_matches)
    }

    /// The conjunctions of the query.
    pub closed spec fn rows(&self) -> Seq<Seq<Filter>> {
        self.filters@
    }

    /// Whether the archetype `archetype` can hold entities of the query.
    pub fn has(&self, archetype: ArchetypeId) -> (matched: bool)
        ensures
            matched == self.matches().contains(archetype.0 as nat),
    {
        bits_test(self.ids, archetype.0 as usize)
    }

    /// Whether the archetype of the entity can hold entities of the query.
    pub fn is_matched(&self, entity: &EntityCell) -> (matched: bool)
        ensures
            matched == self.matches().contains(entity.archetype.0 as nat),
    {
        bits_test(self.ids, entity.archetype.0 as usize)
    }

    /// Whether the entity belongs to the query.
    pub fn contains(&self, ticks: Ticks, entity: &EntityCell) -> (belongs: bool)
        ensures
            belongs == spec_contains(
                self.matches(),
                self.tick_matches(),
                self.rows(),
                *entity,
                ticks,
            ),
    {
        let id: usize = entity.archetype.0 as usize;
        // Not matched in any case
        if !bits_test(self.ids, id) {
            return false;
        }
        // No additional tick-based filter
        if !bits_test(self.tick_matches, id) {
            return true;
        }
        within_tick(self.filters, ticks, entity)
    }
}

/// Whether the entities of an archetype have to be checked for change ticks.
#[derive(Clone, Copy, Debug)]
enum CheckTickInner {
    /// Every entity of the archetype belongs to the query.
    Pass,
    /// The entities have to pass a conjunction about change ticks.
    Filter,
}

/// Whether the entities of an archetype have to be checked for change ticks.
#[derive(Clone, Copy, Debug)]
pub struct CheckTick(CheckTickInner);

impl Default for CheckTick {
    /// No check: every entity passes.
    fn default() -> (check: Self)
        ensures
            !check.needs_check(),
    {
        CheckTick(CheckTickInner::Pass)
    }
}

impl CheckTick {
    /// The entities have to pass a conjunction about change ticks.
    pub closed spec fn needs_check(&self) -> bool {
        self.0 is Filter
    }

    /// Whether an entity of the archetype belongs to the query.
    pub fn within_tick(&self, filters: &Filters, ticks: Ticks, entity: &EntityCell) -> (within:
        bool)
        ensures
            within == (self.needs_check() ==> spec_within_tick(filters@, *entity, ticks)),
    {
        match self.0 {
            CheckTickInner::Pass => true,
            CheckTickInner::Filter => within_tick(filters, ticks, entity),
        }
    }
}

/// `ids` lists the members of `set` in ascending order.
pub open spec fn lists(ids: Seq<u32>, set: Set<nat>) -> bool {
    &&& forall|i: int, j: int| 0 <= i < j < ids.len() ==> ids[i] < ids[j]
    &&& forall|i: int| 0 <= i < ids.len() ==> set.contains(#[trigger] ids[i] as nat)
    &&& forall|id: nat| set.contains(id) ==> exists|i: int| 0 <= i < ids.len() && ids[i] == id
}

/// A cursor over the archetypes that can hold entities of a query, in
/// ascending order of their ids.
pub struct ArchematchIter<'a> {
    ids: Vec<u32>,
    next: usize,
    tick_matches: &'a Bits,
}

impl<'a> ArchematchIter<'a> {
    /// The ids that the cursor walks, in ascending order.
    pub closed spec fn ids(&self) -> Seq<u32> {
        self.ids@
    }

    /// How many ids the cursor has handed out.
    pub closed spec fn position(&self) -> nat {
        self.next as nat
    }

    /// The ids of the archetypes whose entities have to be checked for change
    /// ticks.
    pub closed spec fn tick_matches(&self) -> Set<nat> {
        bits_on(*self.tick_matches)
    }

    /// The cursor is within its ids.
    #[verifier::type_invariant]
    pub closed spec fn wf(&self) -> bool {
        self.next <= self.ids@.len()
    }

    /// The next archetype, with what its entities have to be checked for; or
    /// `None` after the last one.
    pub fn next(&mut self) -> (found: Option<(ArchetypeId, CheckTick)>)
        ensures
            final(self).ids() == old(self).ids(),
            final(self).tick_matches() == old(self).tick_matches(),
            old(self).position() < old(self).ids().len() ==> final(self).position()
                == old(self).position() + 1 && found is Some && found.unwrap().0 == ArchetypeId(
                old(self).ids()[old(self).position() as int],
            ) && found.unwrap().1.needs_check() == old(self).tick_matches().contains(
                found.unwrap().0.0 as nat,
            ),
            old(self).position() >= old(self).ids().len() ==> found is None
                && final(self).position() == old(self).position(),
    {
        proof {
            use_type_invariant(&*self);
        }
        if self.next >= self.ids.len() {
            return None;
        }
        let next: u32 = self.ids[self.next];
        let check = if bits_test(self.tick_matches, next as usize) {
            CheckTick(CheckTickInner::Filter)
        } else {
            CheckTick(CheckTickInner::Pass)
        };
        self.next = self.next + 1;
        Some((ArchetypeId(next), check))
    }
}

impl MatchedArchetypes {
    /// The cache together with `filters`, to decide on single entities.
    pub fn getter<'a>(&'a self, filters: &'a Filters) -> (get: ArchematchGet<'a>)
        ensures
            get.matches() == self.matches(),
            get.tick_matches() == self.tick_matches(),
            get.rows() == filters@,
    {
        ArchematchGet { ids: &self.ids, tick_matches: &self.tick_matches, filters }
    }

    /// A cursor over the archetypes that can hold entities of the query, in
    /// ascending order of their ids.
    pub fn iter<'a>(&'a self) -> (cursor: ArchematchIter<'a>)
        ensures
            lists(cursor.ids(), self.matches()),
            cursor.position() == 0,
            cursor.tick_matches() == self.tick_matches(),
    {
        proof {
            use_type_invariant(self);
        }
        ArchematchIter { ids: bits_ones(&self.ids), next: 0, tick_matches: &self.tick_matches }
    }
}

impl Clone for MatchedArchetypes {
    /// A copy with the same marks.
    fn clone(&self) -> (copy: Self)
        ensures
            copy.matches() == self.matches(),
            copy.tick_matches() == self.tick_matches(),
            copy.last_seen() == self.last_seen(),
    {
        proof {
            use_type_invariant(self);
        }
        MatchedArchetypes {
            ids: bits_clone(&self.ids),
            tick_matches: bits_clone(&self.tick_matches),
            last_gen: self.last_gen,
        }
    }
}

impl Default for MatchedArchetypes {
    fn default() -> (cache: Self)
        ensures
            cache.matches() == Set::<nat>::empty(),
            cache.tick_matches() == Set::<nat>::empty(),
            cache.last_seen() == 0,
    {
        Self::empty()
    }
}

/// `after` is `before`, extended over the archetypes of `table` that `before`
/// had not looked at: each of them is marked as the query evaluates on it,
/// the marks of `before` stand, and all of `table` has been looked at.
pub open spec fn extends(
    before: MatchedArchetypes,
    after: MatchedArchetypes,
    fetches: Fetches,
    filters: Filters,
    table: Seq<Seq<usize>>,
) -> bool {
    &&& after.last_seen() == if before.last_seen() <= table.len() {
        table.len()
    } else {
        before.last_seen()
    }
    &&& forall|id: nat|
        after.matches().contains(id) <==> before.matches().contains(id) || (before.last_seen()
            <= id < after.last_seen() && spec_matches(fetches, filters@, table[id as int]))
    &&& forall|id: nat|
        after.tick_matches().contains(id) <==> before.tick_matches().contains(id) || (
        before.last_seen() <= id < after.last_seen() && spec_tick_matches(
            fetches,
            filters@,
            table[id as int],
        ))
}

/// Extending a cache that agrees with a store gives a cache that agrees with
/// the store, and that has looked at all of it.
pub proof fn lemma_extends_covers(
    before: MatchedArchetypes,
    after: MatchedArchetypes,
    fetches: Fetches,
    filters: Filters,
    table: Seq<Seq<usize>>,
)
    requires
        before.wf(),
        before.covers(fetches, filters, table),
        extends(before, after, fetches, filters, table),
    ensures
        after.covers(fetches, filters, table),
        after.last_seen() == table.len(),
{
    assert forall|id: nat| id < after.last_seen() implies (after.matches().contains(id)
        <==> spec_matches(fetches, filters@, #[trigger] table[id as int])) by {
        if id < before.last_seen() {
            assert(before.matches().contains(id) <==> spec_matches(
                fetches,
                filters@,
                table[id as int],
            ));
        } else {
            assert(!before.matches().contains(id));
        }
    }
    assert forall|id: nat| id < after.last_seen() implies (after.tick_matches().contains(id)
        <==> spec_tick_matches(fetches, filters@, #[trigger] table[id as int])) by {
        assert(before.tick_matches().contains(id) ==> before.matches().contains(id));
        if id < before.last_seen() {
            assert(before.tick_matches().contains(id) <==> spec_tick_matches(
                fetches,
                filters@,
                table[id as int],
            ));
        } else {
            assert(!before.matches().contains(id));
        }
    }
    assert forall|id: nat| id >= after.last_seen() implies !after.matches().contains(id) by {
        assert(!before.matches().contains(id));
    }
}

/// Extending a cache over a store without new archetypes changes nothing.
pub proof fn lemma_extends_nothing_new(
    before: MatchedArchetypes,
    after: MatchedArchetypes,
    fetches: Fetches,
    filters: Filters,
    table: Seq<Seq<usize>>,
)
    requires
        extends(before, after, fetches, filters, table),
        before.last_seen() >= table.len(),
    ensures
        after.matches() == before.matches(),
        after.tick_matches() == before.tick_matches(),
        after.last_seen() == before.last_seen(),
{
    assert(after.matches() =~= before.matches());
    assert(after.tick_matches() =~= before.tick_matches());
}

/// A cache that has looked at all of `table` marks exactly the archetypes on
/// which the query evaluates to a match, and marks for change ticks exactly
/// those that pass a conjunction about change ticks.
pub proof fn lemma_cache_agrees(
    cache: MatchedArchetypes,
    fetches: Fetches,
    filters: Filters,
    table: Seq<Seq<usize>>,
    id: nat,
)
    requires
        cache.wf(),
        cache.covers(fetches, filters, table),
        cache.last_seen() == table.len(),
    ensures
        cache.matches().contains(id) <==> id < table.len() && spec_matches(
            fetches,
            filters@,
            table[id as int],
        ),
        cache.tick_matches().contains(id) ==> cache.matches().contains(id),
        id < table.len() ==> (cache.tick_matches().contains(id) <==> spec_tick_matches(
            fetches,
            filters@,
            table[id as int],
        )),
{
    if id < table.len() {
        assert(cache.matches().contains(id) <==> spec_matches(fetches, filters@, table[id as int]));
        assert(cache.tick_matches().contains(id) <==> spec_tick_matches(
            fetches,
            filters@,
            table[id as int],
        ));
    }
}

/// Archetypes are only added to a store: a cache that agrees with a store
/// agrees with every store that has the same archetypes and more after them.
pub proof fn lemma_covers_grown(
    cache: MatchedArchetypes,
    fetches: Fetches,
    filters: Filters,
    before: Seq<Seq<usize>>,
    after: Seq<Seq<usize>>,
)
    requires
        cache.covers(fetches, filters, before),
        before.len() <= after.len(),
        forall|id: int| 0 <= id < before.len() ==> before[id] == after[id],
    ensures
        cache.covers(fetches, filters, after),
{
    assert forall|id: nat| id < cache.last_seen() implies (cache.matches().contains(id)
        <==> spec_matches(fetches, filters@, #[trigger] after[id as int])) by {
        assert(cache.matches().contains(id) <==> spec_matches(
            fetches,
            filters@,
            before[id as int],
        ));
    }
    assert forall|id: nat| id < cache.last_seen() implies (cache.tick_matches().contains(id)
        <==> spec_tick_matches(fetches, filters@, #[trigger] after[id as int])) by {
        assert(cache.tick_matches().contains(id) <==> spec_tick_matches(
            fetches,
            filters@,
            before[id as int],
        ));
    }
}

} // verus!
