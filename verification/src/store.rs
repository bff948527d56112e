//! What the query engine reads of the entity/component store.
//!
//! The store itself is not part of this crate. A query is compiled against
//! component ids, is matched against the component lists of the store's
//! archetypes, and is evaluated on the change ticks of one entity at a time.
//! The types here hold exactly those values.
use bevy_ecs::archetype::Archetypes;
use bevy_ecs::component::ComponentId as StoreComponentId;
use bevy_ecs::component::Tick as StoreTick;
use bevy_ecs::entity::Entity as StoreEntity;
use bevy_ecs::world::World;
use vstd::prelude::*;

verus! {

/// The largest index that a [`ComponentId`] can hold: a filter atom stores the
/// index in 30 bits.
pub const MAX_COMPONENT_INDEX: u32 = 0x3fff_ffff;

/// The oldest age of a change that is still told apart from older ones, in
/// ticks: the store clamps every age to it.
pub const MAX_CHANGE_AGE: u32 = 3_258_167_296;

/// Identifies a component type within the store.
///
/// The index is at most [`MAX_COMPONENT_INDEX`].
#[derive(Clone, Copy, Debug, PartialEq, Eq, Structural, Hash, PartialOrd, Ord)]
pub struct ComponentId {
    index: u32,
}

impl View for ComponentId {
    type V = nat;

    /// The index of the component in the store.
    closed spec fn view(&self) -> nat {
        self.index as nat
    }
}

impl ComponentId {
    /// The index fits the 30 bits of a filter atom.
    #[verifier::type_invariant]
    pub open spec fn wf(self) -> bool {
        self@ <= MAX_COMPONENT_INDEX
    }

    /// The id of the component with the given index, if the index is at most
    /// [`MAX_COMPONENT_INDEX`].
    pub fn new(index: usize) -> (id: Option<ComponentId>)
        ensures
            id is Some <==> index <= MAX_COMPONENT_INDEX,
            id matches Some(made) ==> made@ == index && made.wf(),
    {
        if index <= MAX_COMPONENT_INDEX as usize {
            Some(ComponentId { index: index as u32 })
        } else {
            None
        }
    }

    /// The index of the component in the store.
    pub fn index(self) -> (index: usize)
        ensures
            index == self@,
            index <= MAX_COMPONENT_INDEX,
            self.wf(),
    {
        proof {
            use_type_invariant(self);
        }
        self.index as usize
    }
}

/// Two component ids with the same index are the same id.
pub proof fn lemma_component_id_by_index(a: ComponentId, b: ComponentId)
    requires
        a@ == b@,
    ensures
        a == b,
{
}

/// Identifies one entity of the store.
#[derive(Clone, Copy, Debug, PartialEq, Eq, Structural, Hash)]
pub struct Entity(pub u64);

/// Identifies one archetype of the store: its position in creation order.
#[derive(Clone, Copy, Debug, PartialEq, Eq, Structural, Hash)]
pub struct ArchetypeId(pub u32);

/// A reading of the store's change counter, which wraps around.
#[derive(Clone, Copy, Debug, PartialEq, Eq, Structural)]
pub struct Tick(pub u32);

/// When one component of one entity was added and last changed.
#[derive(Clone, Copy, Debug, PartialEq, Eq, Structural)]
pub struct ComponentTicks {
    /// The index of the component in the store.
    pub component: usize,
    /// When the component was added to the entity.
    pub added: Tick,
    /// When the component was last changed.
    pub changed: Tick,
}

/// What the engine reads of one entity: where it is stored, and the change
/// ticks of each of its components.
#[derive(Clone, Debug)]
pub struct EntityCell {
    /// The entity.
    pub id: Entity,
    /// The archetype that holds the entity.
    pub archetype: ArchetypeId,
    /// The entity's components, which are those of its archetype.
    pub components: Vec<ComponentTicks>,
}

impl EntityCell {
    /// The indices of the entity's components, in storage order.
    pub open spec fn component_ids(&self) -> Seq<usize> {
        self.components@.map_values(|ticks: ComponentTicks| ticks.component)
    }

    /// The ticks of the first entry for `component`, if the entity has it.
    pub open spec fn ticks_of(&self, component: nat) -> Option<ComponentTicks> {
        first_ticks(self.components@, component)
    }
}

impl EntityCell {
    /// The ticks of the first entry for the component with index `component`,
    /// if the entity has it.
    pub fn get_change_ticks(&self, component: usize) -> (found: Option<ComponentTicks>)
        ensures
            found == self.ticks_of(component as nat),
    {
        let mut at: usize = 0;
        assert(self.components@.skip(0) =~= self.components@);
        while at < self.components.len()
            invariant
                at <= self.components@.len(),
                first_ticks(self.components@, component as nat) == first_ticks(
                    self.components@.skip(at as int),
                    component as nat,
                ),
            decreases self.components.len() - at,
        {
            let entry: ComponentTicks = self.components[at];
            proof {
                let rest = self.components@.skip(at as int);
                assert(rest[0] == entry);
                assert(rest.skip(1) =~= self.components@.skip(at + 1));
            }
            if entry.component == component {
                return Some(entry);
            }
            at += 1;
        }
        proof {
            assert(self.components@.skip(at as int).len() == 0);
        }
        None
    }

    /// Whether the entity has the component with index `component`.
    pub fn contains(&self, component: usize) -> (has: bool)
        ensures
            has == has_component(self.component_ids(), component as nat),
    {
        let mut at: usize = 0;
        while at < self.components.len()
            invariant
                at <= self.components@.len(),
                forall|k: int| 0 <= k < at ==> self.component_ids()[k] != component,
            decreases self.components.len() - at,
        {
            if self.components[at].component == component {
                assert(self.component_ids()[at as int] == component);
                return true;
            }
            at += 1;
        }
        false
    }

    /// The indices of the entity's components, in storage order.
    pub fn component_indices(&self) -> (ids: Vec<usize>)
        ensures
            ids@ == self.component_ids(),
    {
        let mut ids: Vec<usize> = Vec::with_capacity(self.components.len());
        let mut at: usize = 0;
        assert(ids@ =~= self.component_ids().take(0));
        while at < self.components.len()
            invariant
                at <= self.components@.len(),
                ids@ == self.component_ids().take(at as int),
            decreases self.components.len() - at,
        {
            ids.push(self.components[at].component);
            proof {
                assert(ids@ =~= self.component_ids().take(at + 1));
            }
            at += 1;
        }
        proof {
            assert(self.component_ids().take(at as int) =~= self.component_ids());
        }
        ids
    }
}

/// The component with index `index` is among `ids`.
pub open spec fn has_component(ids: Seq<usize>, index: nat) -> bool {
    exists|at: int| 0 <= at < ids.len() && #[trigger] ids[at] == index
}

/// The first entry of `entries` that is about `component`.
pub open spec fn first_ticks(entries: Seq<ComponentTicks>, component: nat) -> Option<
    ComponentTicks,
>
    decreases entries.len(),
{
    if entries.len() == 0 {
        None
    } else if entries[0].component == component {
        Some(entries[0])
    } else {
        first_ticks(entries.skip(1), component)
    }
}

/// `bevy_ecs::archetype::Archetypes`, the archetypes of a store. Nothing is
/// known of a value but what the functions below say.
#[verifier::external_type_specification]
#[verifier::external_body]
pub struct ExArchetypes(Archetypes);

/// The component indices of each archetype of the store, the archetypes in
/// creation order.
pub uninterp spec fn archetype_table(archetypes: Archetypes) -> Seq<Seq<usize>>;

/// How many archetypes the store has.
///
/// Calls `bevy_ecs::archetype::Archetypes::len`.
#[verifier::external_body]
pub(crate) fn archetype_count(archetypes: &Archetypes) -> (count: usize)
    ensures
        count == archetype_table(*archetypes).len(),
{
    archetypes.len()
}

/// The component indices of the archetype at position `index`.
///
/// Takes the archetype from `bevy_ecs::archetype::Archetypes::iter`, which
/// walks the archetypes in creation order, and collects the ids that
/// `Archetype::components` hands out, each as its index.
#[verifier::external_body]
pub(crate) fn archetype_components(archetypes: &Archetypes, index: usize) -> (components: Vec<
    usize,
>)
    requires
        index < archetype_table(*archetypes).len(),
    ensures
        components@ == archetype_table(*archetypes)[index as int],
{
    archetypes.iter().nth(index).unwrap().components().map(|id| id.index()).collect()
}

/// The entities of each archetype of the store, in storage order, each as
/// the bits of its id; the archetypes in creation order.
pub uninterp spec fn archetype_entities(archetypes: Archetypes) -> Seq<Seq<u64>>;

/// The entities of the archetype at position `index`, in storage order, each
/// as the bits of its id.
///
/// Takes the archetype from `bevy_ecs::archetype::Archetypes::iter` and
/// collects the entities that `Archetype::entities` lists, each by
/// `Entity::to_bits`.
#[verifier::external_body]
pub(crate) fn archetype_entity_ids(archetypes: &Archetypes, index: usize) -> (entities: Vec<u64>)
    requires
        index < archetype_table(*archetypes).len(),
    ensures
        entities@ == archetype_entities(*archetypes)[index as int],
{
    archetypes.iter().nth(index).unwrap().entities().iter().map(|entry| entry.entity().to_bits())
        .collect()
}

/// `bevy_ecs::world::World`, a store. Nothing is known of a value but what
/// the functions below say.
#[verifier::external_type_specification]
#[verifier::external_body]
pub struct ExWorld(World);

/// The component indices of each archetype of the store `world`, the
/// archetypes in creation order.
pub uninterp spec fn world_table(world: World) -> Seq<Seq<usize>>;

/// The entities of each archetype of the store `world`, in storage order,
/// each as the bits of its id; the archetypes in creation order.
pub uninterp spec fn world_entities(world: World) -> Seq<Seq<u64>>;

/// The archetypes of the store.
///
/// Calls `bevy_ecs::world::World::archetypes`, which hands out the store's
/// own collection of archetypes.
#[verifier::external_body]
pub(crate) fn world_archetypes(world: &World) -> (archetypes: &Archetypes)
    ensures
        archetype_table(*archetypes) == world_table(*world),
        archetype_entities(*archetypes) == world_entities(*world),
{
    world.archetypes()
}

/// When the components of the entities of the store were added and last
/// changed: from the bits of an entity's id and the index of one of its
/// components to the entry of that component.
pub uninterp spec fn world_change_ticks(world: World) -> Map<(u64, usize), ComponentTicks>;

/// What the store has recorded for `component` of `entity`, if the store has
/// the entity and the entity has the component.
pub open spec fn recorded_ticks(world: World, entity: u64, component: usize) -> Option<
    ComponentTicks,
> {
    world_change_ticks(world).get((entity, component))
}

/// When the component with index `component` of the entity with the id bits
/// `entity` was added and last changed.
///
/// Calls `bevy_ecs::world::World::get_entity` and, on the entity,
/// `EntityRef::get_change_ticks_by_id`; either gives nothing where the store
/// lacks what is asked for. The entry is about the component that was asked
/// for.
#[verifier::external_body]
pub(crate) fn entity_change_ticks(world: &World, entity: u64, component: usize) -> (ticks: Option<
    ComponentTicks,
>)
    ensures
        ticks == world_change_ticks(*world).get((entity, component)),
        ticks matches Some(entry) ==> entry.component == component,
{
    let found = world.get_entity(StoreEntity::from_bits(entity))?;
    let ticks = found.get_change_ticks_by_id(StoreComponentId::new(component))?;
    Some(
        ComponentTicks {
            component,
            added: Tick(ticks.added_tick().get()),
            changed: Tick(ticks.last_changed_tick().get()),
        },
    )
}

/// The tick at which the trackers of the store `world` were last cleared.
pub uninterp spec fn world_last_run(world: World) -> u32;

/// The tick at which the store's trackers were last cleared.
///
/// Calls `bevy_ecs::world::World::last_change_tick`, which reads a field of
/// the store that only a holder of the store as a whole can set: as long as
/// the store is shared, every call gives the same tick.
#[verifier::external_body]
pub(crate) fn last_run_of(world: &World) -> (tick: Tick)
    ensures
        tick.0 == world_last_run(*world),
{
    Tick(world.last_change_tick().get())
}

/// The store's present tick.
///
/// Calls `bevy_ecs::world::World::read_change_tick`. The present tick is a
/// counter that other holders of the store may advance, so nothing is said
/// of the result.
#[verifier::external_body]
pub(crate) fn present_tick_of(world: &World) -> (tick: Tick) {
    Tick(world.read_change_tick().get())
}

/// The entries of the components `components` of `entity`, in the order of
/// `components`; a component without recorded ticks has no entry.
pub open spec fn recorded_components(world: World, entity: u64, components: Seq<usize>) -> Seq<
    ComponentTicks,
>
    decreases components.len(),
{
    if components.len() == 0 {
        Seq::empty()
    } else {
        let rest = recorded_components(world, entity, components.drop_last());
        match recorded_ticks(world, entity, components.last()) {
            Some(entry) => rest.push(entry),
            None => rest,
        }
    }
}

/// `cell` is what the store `world` holds of the entity with the id bits
/// `entity`, which is of the archetype `archetype` with the components
/// `components`.
pub open spec fn is_recorded(
    cell: EntityCell,
    world: World,
    entity: u64,
    archetype: u32,
    components: Seq<usize>,
) -> bool {
    &&& cell.id == Entity(entity)
    &&& cell.archetype == ArchetypeId(archetype)
    &&& cell.components@ == recorded_components(world, entity, components)
}

/// `cells` is what the store `world` holds of the entities of its archetype
/// at position `archetype`, in storage order.
pub open spec fn are_recorded(cells: Seq<EntityCell>, world: World, archetype: int) -> bool {
    &&& cells.len() == world_entities(world)[archetype].len()
    &&& forall|k: int|
        0 <= k < cells.len() ==> is_recorded(
            #[trigger] cells[k],
            world,
            world_entities(world)[archetype][k],
            archetype as u32,
            world_table(world)[archetype],
        )
}

/// Reads from the store `world` what the query engine needs of one entity of
/// the archetype `archetype`, whose components are `components`.
pub fn read_entity(world: &World, entity: u64, archetype: u32, components: &[usize]) -> (cell:
    EntityCell)
    ensures
        is_recorded(cell, *world, entity, archetype, components@),
{
    let mut entries: Vec<ComponentTicks> = Vec::with_capacity(components.len());
    let mut at: usize = 0;
    while at < components.len()
        invariant
            at <= components@.len(),
            entries@ == recorded_components(*world, entity, components@.take(at as int)),
        decreases components.len() - at,
    {
        proof {
            assert(components@.take(at + 1).drop_last() =~= components@.take(at as int));
        }
        match entity_change_ticks(world, entity, components[at]) {
            Some(entry) => {
                entries.push(entry);
            },
            None => {},
        }
        at += 1;
    }
    proof {
        assert(components@.take(at as int) =~= components@);
    }
    EntityCell { id: Entity(entity), archetype: ArchetypeId(archetype), components: entries }
}

/// Reads from the store `world` what the query engine needs of the entities
/// of the archetype at position `archetype`.
pub fn read_archetype(world: &World, archetype: u32) -> (cells: Vec<EntityCell>)
    requires
        archetype < world_table(*world).len(),
    ensures
        are_recorded(cells@, *world, archetype as int),
{
    let archetypes: &Archetypes = world_archetypes(world);
    let components: Vec<usize> = archetype_components(archetypes, archetype as usize);
    let entities: Vec<u64> = archetype_entity_ids(archetypes, archetype as usize);
    let mut cells: Vec<EntityCell> = Vec::with_capacity(entities.len());
    let mut at: usize = 0;
    while at < entities.len()
        invariant
            at <= entities@.len(),
            cells@.len() == at,
            entities@ == world_entities(*world)[archetype as int],
            components@ == world_table(*world)[archetype as int],
            forall|k: int|
                0 <= k < at ==> is_recorded(
                    #[trigger] cells@[k],
                    *world,
                    entities@[k],
                    archetype,
                    components@,
                ),
        decreases entities.len() - at,
    {
        let cell: EntityCell = read_entity(world, entities[at], archetype, components.as_slice());
        cells.push(cell);
        at += 1;
    }
    cells
}

/// How many ticks lie between `then` and `now` on the wrapping counter, at most
/// [`MAX_CHANGE_AGE`].
pub open spec fn tick_age(now: Tick, then: Tick) -> int {
    let since: int = if now.0 >= then.0 {
        now.0 - then.0
    } else {
        now.0 - then.0 + 0x1_0000_0000
    };
    if since <= MAX_CHANGE_AGE {
        since
    } else {
        MAX_CHANGE_AGE as int
    }
}

/// `tick` is younger than `last_run`, both seen from `this_run`.
pub open spec fn spec_is_newer_than(tick: Tick, last_run: Tick, this_run: Tick) -> bool {
    tick_age(this_run, last_run) > tick_age(this_run, tick)
}

/// Whether `tick` occurred since `last_run`, as the store decides it.
///
/// Calls `bevy_ecs::component::Tick::is_newer_than`. The contract restates
/// what that function computes: both ages are taken by wrapping subtraction
/// from `this_run`, clamped to `MAX_CHANGE_AGE`, and compared.
#[verifier::external_body]
pub(crate) fn is_newer_than(tick: Tick, last_run: Tick, this_run: Tick) -> (newer: bool)
    ensures
        newer == spec_is_newer_than(tick, last_run, this_run),
{
    StoreTick::new(tick.0).is_newer_than(StoreTick::new(last_run.0), StoreTick::new(this_run.0))
}

} // verus!
