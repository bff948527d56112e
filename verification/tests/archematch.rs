use bevy_reflect::{FromType, ReflectFromPtr};
use bevy_ecs::component::{Component, TableStorage};
use bevy_ecs::world::World;
use bevy_mod_dynamic_query::archematch::{evaluate, within_tick, MatchedArchetypes};
use bevy_mod_dynamic_query::fetches::Fetches;
use bevy_mod_dynamic_query::filters::Filters;
use bevy_mod_dynamic_query::iter::{DynamicQueryIter, RoDynamicQueryIter};
use bevy_mod_dynamic_query::{
    AndFilter, AndFilters, ArchetypeId, ComponentId, ComponentTicks, DynamicItem, DynamicQuery,
    DynamicQueryError, DynamicState, Entity, EntityCell, Fetch, FetchData, OrFilters, Tick, Ticks,
};

fn accessor() -> ReflectFromPtr {
    <ReflectFromPtr as FromType<u32>>::from_type()
}

struct Alpha;
struct Beta;
struct Gamma;

impl Component for Alpha {
    type Storage = TableStorage;
}
impl Component for Beta {
    type Storage = TableStorage;
}
impl Component for Gamma {
    type Storage = TableStorage;
}

fn id(index: usize) -> ComponentId {
    ComponentId::new(index).unwrap()
}

fn read(index: usize) -> Fetch {
    Fetch::Read(FetchData { id: id(index), from_ptr: accessor() })
}

fn or(groups: Vec<Vec<AndFilter>>) -> OrFilters {
    OrFilters(groups.into_iter().map(AndFilters).collect())
}

fn cell(entity: u64, archetype: u32, components: &[(usize, u32, u32)]) -> EntityCell {
    EntityCell {
        id: Entity(entity),
        archetype: ArchetypeId(archetype),
        components: components
            .iter()
            .map(|&(component, added, changed)| ComponentTicks {
                component,
                added: Tick(added),
                changed: Tick(changed),
            })
            .collect(),
    }
}

fn tick_query() -> (Fetches, Filters) {
    let fetches = Fetches::new(vec![read(1)]).unwrap();
    let filters = Filters::new(or(vec![
        vec![AndFilter::With(id(2))],
        vec![AndFilter::Without(id(2)), AndFilter::Changed(id(3))],
    ]))
    .unwrap();
    (fetches, filters)
}

#[test]
fn evaluate_tells_matches_and_tick_matches() {
    let (fetches, filters) = tick_query();
    assert_eq!(evaluate(&fetches, &filters, &[1, 2]), (true, false));
    assert_eq!(evaluate(&fetches, &filters, &[1, 3]), (true, true));
    assert_eq!(evaluate(&fetches, &filters, &[1, 2, 3]), (true, false));
    assert_eq!(evaluate(&fetches, &filters, &[1]), (false, false));
    assert_eq!(evaluate(&fetches, &filters, &[2, 3]), (false, false));
    assert_eq!(evaluate(&fetches, &filters, &[]), (false, false));
    let no_filters = Filters::new(OrFilters::default()).unwrap();
    assert_eq!(evaluate(&fetches, &no_filters, &[1]), (true, false));
    assert_eq!(evaluate(&fetches, &no_filters, &[4]), (false, false));
    // An archetype that passes a conjunction with and one without tick atoms
    // has its entities checked.
    let both = Filters::new(or(vec![vec![AndFilter::With(id(1))], vec![AndFilter::Added(id(1))]]));
    assert_eq!(evaluate(&fetches, &both.unwrap(), &[1]), (true, true));
}

#[test]
fn cache_marks_archetypes_as_they_come() {
    let (fetches, filters) = tick_query();
    let mut cache = MatchedArchetypes::empty();
    assert_eq!(cache.seen(), 0);
    assert!(cache.matched().is_empty());
    let table: Vec<Vec<usize>> = vec![vec![], vec![1, 2], vec![2], vec![3, 1], vec![1], vec![1, 2, 3]];
    for components in &table {
        cache.add_archetype(&fetches, &filters, components);
    }
    assert_eq!(cache.seen(), 6);
    assert_eq!(cache.matched(), vec![1, 3, 5]);
    let mut cursor = cache.iter();
    let mut walked = Vec::new();
    while let Some((archetype, check)) = cursor.next() {
        let entity = cell(0, archetype.0, &[(1, 0, 0), (3, 0, 0)]);
        let ticks = Ticks::new(Tick(5), Tick(6));
        walked.push((archetype, check.within_tick(&filters, ticks, &entity)));
    }
    assert!(cursor.next().is_none());
    assert_eq!(
        walked,
        vec![(ArchetypeId(1), true), (ArchetypeId(3), false), (ArchetypeId(5), true)]
    );
    let copy = cache.clone();
    assert_eq!(copy.matched(), vec![1, 3, 5]);
    assert_eq!(copy.seen(), 6);
    assert_eq!(MatchedArchetypes::default().seen(), 0);

    let getter = cache.getter(&filters);
    let ticks = Ticks::new(Tick(5), Tick(8));
    assert!(getter.contains(ticks, &cell(1, 1, &[(1, 0, 0), (2, 0, 0)])));
    assert!(getter.contains(ticks, &cell(1, 3, &[(3, 0, 7), (1, 0, 0)])));
    assert!(!getter.contains(ticks, &cell(1, 3, &[(3, 0, 5), (1, 0, 0)])));
    assert!(getter.is_matched(&cell(1, 3, &[(3, 0, 5), (1, 0, 0)])));
    assert!(!getter.contains(ticks, &cell(1, 4, &[(1, 0, 7)])));
    assert!(!getter.is_matched(&cell(1, 4, &[(1, 0, 7)])));
    assert!(!getter.contains(ticks, &cell(1, 700, &[(1, 0, 7), (2, 0, 0)])));
}

#[test]
fn within_tick_looks_at_conjunctions_with_tick_atoms_only() {
    let (_, filters) = tick_query();
    let ticks = Ticks::new(Tick(5), Tick(8));
    assert!(within_tick(&filters, ticks, &cell(1, 0, &[(3, 0, 6)])));
    assert!(!within_tick(&filters, ticks, &cell(1, 0, &[(3, 0, 5)])));
    assert!(!within_tick(&filters, ticks, &cell(1, 0, &[(2, 6, 6)])));
    assert!(!within_tick(&filters, ticks, &cell(1, 0, &[(2, 6, 6), (3, 6, 6)])));
}

#[test]
fn cache_marks_many_archetypes() {
    let fetches = Fetches::new(vec![read(0)]).unwrap();
    let filters = Filters::new(OrFilters::default()).unwrap();
    let mut cache = MatchedArchetypes::empty();
    let mut expected = Vec::new();
    for archetype in 0..300u32 {
        if archetype % 7 == 3 || archetype % 32 == 31 || archetype % 32 == 0 {
            cache.add_archetype(&fetches, &filters, &[5, 0]);
            expected.push(archetype);
        } else {
            cache.add_archetype(&fetches, &filters, &[5]);
        }
    }
    assert_eq!(cache.matched(), expected);
    assert_eq!(cache.seen(), 300);
}

#[test]
fn cache_follows_a_world() {
    let mut world = World::new();
    let alpha = world.init_component::<Alpha>().index();
    let beta = world.init_component::<Beta>().index();
    let gamma = world.init_component::<Gamma>().index();
    let fetches = Fetches::new(vec![read(alpha)]).unwrap();
    let filters = Filters::new(or(vec![
        vec![AndFilter::With(id(beta))],
        vec![AndFilter::Changed(id(gamma))],
    ]))
    .unwrap();
    world.spawn((Alpha, Beta));
    world.spawn(Alpha);
    let mut cache = MatchedArchetypes::new(&fetches, &filters, world.archetypes());
    assert_eq!(cache.seen(), world.archetypes().len());
    world.spawn((Alpha, Gamma));
    world.spawn((Beta, Gamma));
    world.spawn((Alpha, Beta, Gamma));
    cache.add_archetypes(&fetches, &filters, world.archetypes());
    assert_eq!(cache.seen(), world.archetypes().len());

    let mut expected = Vec::new();
    let mut from_scratch = MatchedArchetypes::empty();
    for (position, archetype) in world.archetypes().iter().enumerate() {
        let components: Vec<usize> = archetype.components().map(|c| c.index()).collect();
        let (matches, _) = evaluate(&fetches, &filters, &components);
        if matches {
            expected.push(position as u32);
        }
        from_scratch.add_archetype(&fetches, &filters, &components);
    }
    assert_eq!(expected.len(), 3);
    assert_eq!(cache.matched(), expected);
    assert_eq!(from_scratch.matched(), expected);

    // The archetypes with `Gamma` but without `Beta` are checked for ticks.
    let mut cursor = cache.iter();
    let mut checked = 0;
    while let Some((archetype, check)) = cursor.next() {
        let components: Vec<usize> = world
            .archetypes()
            .iter()
            .nth(archetype.0 as usize)
            .unwrap()
            .components()
            .map(|c| c.index())
            .collect();
        let ticks = Ticks::new(Tick(1), Tick(2));
        let entity = cell(1, archetype.0, &[(alpha, 0, 0), (beta, 0, 0), (gamma, 0, 0)]);
        let passes_without_change = check.within_tick(&filters, ticks, &entity);
        assert_eq!(passes_without_change, !components.contains(&gamma));
        if !passes_without_change {
            checked += 1;
        }
    }
    assert_eq!(checked, 2);
}

#[test]
fn rows_skip_archetypes_that_the_store_lacks() {
    let query = DynamicQuery::new(vec![Fetch::Entity, read(1)], OrFilters::default()).unwrap();
    let mut state = DynamicState::detached(&query);
    state.add_archetype(&[1]);
    state.add_archetype(&[2]);
    state.add_archetype(&[1, 2]);
    state.add_archetype(&[1, 3]);
    assert_eq!(state.matched_archetypes(), vec![0, 2, 3]);
    assert_eq!(state.archetypes_seen(), 4);
    let world = vec![
        vec![],
        vec![cell(9, 1, &[(2, 0, 0)])],
        vec![cell(4, 2, &[(1, 0, 0), (2, 0, 0)]), cell(2, 2, &[(1, 0, 0), (2, 0, 0)])],
    ];
    let ticks = Ticks::default();
    let mut cursor = RoDynamicQueryIter::new(&world, ticks, &state);
    let mut entities = Vec::new();
    while let Some(entity) = cursor.next_entity() {
        entities.push(entity.id);
    }
    assert_eq!(entities, vec![Entity(4), Entity(2)]);
    assert!(cursor.next().is_none());
    let mut cursor = DynamicQueryIter::new(&world, ticks, &state);
    assert_eq!(
        cursor.next(),
        Some(vec![DynamicItem::Entity(Entity(4)), DynamicItem::Read(id(1))])
    );
    assert_eq!(cursor.next_entity().map(|e| e.id), Some(Entity(2)));
    assert_eq!(cursor.next(), None);
    assert_eq!(cursor.next_entity().map(|e| e.id), None);
    let nothing: Vec<Vec<EntityCell>> = vec![];
    assert!(state.iter(ticks, &nothing).next().is_none());
}

#[test]
fn state_copies_are_independent() {
    let query = DynamicQuery::new(vec![read(1)], OrFilters::default()).unwrap();
    let mut state = DynamicState::detached(&query);
    state.add_archetype(&[1]);
    let mut copy = state.clone();
    copy.add_archetype(&[1, 2]);
    assert_eq!(state.matched_archetypes(), vec![0]);
    assert_eq!(state.archetypes_seen(), 1);
    assert_eq!(copy.matched_archetypes(), vec![0, 1]);
    assert_eq!(copy.archetypes_seen(), 2);
    assert_eq!(copy.fetches().len(), 1);
    assert!(copy.filters().is_empty());
    let entity = cell(7, 1, &[(1, 0, 0), (2, 0, 0)]);
    let ticks = Ticks::default();
    assert_eq!(
        state.get(ticks, entity.id, Some(&entity)).err(),
        Some(DynamicQueryError::Unmatched(Entity(7)))
    );
    assert_eq!(copy.get(ticks, entity.id, Some(&entity)).unwrap(), &[DynamicItem::Read(id(1))][..]);
    assert_eq!(
        copy.get_unchecked_manual(ticks, entity.id, Some(&entity)).unwrap(),
        &mut [DynamicItem::Read(id(1))][..]
    );
}

#[test]
fn get_mut_hands_out_exclusive_access() {
    let query = DynamicQuery::new(
        vec![
            Fetch::OptionMut(FetchData { id: id(3), from_ptr: accessor() }),
            Fetch::Mut(FetchData { id: id(2), from_ptr: accessor() }),
            read(1),
            Fetch::OptionMut(FetchData { id: id(4), from_ptr: accessor() }),
        ],
        OrFilters::default(),
    )
    .unwrap();
    let mut state = DynamicState::detached(&query);
    state.add_archetype(&[1, 2, 4]);
    let entity = cell(7, 0, &[(1, 0, 0), (2, 0, 0), (4, 0, 0)]);
    let ticks = Ticks::default();
    assert_eq!(
        state.get_mut(ticks, entity.id, Some(&entity)).unwrap(),
        &mut [
            DynamicItem::Read(id(1)),
            DynamicItem::Mut(id(2)),
            DynamicItem::OptionMut(None),
            DynamicItem::OptionMut(Some(id(4))),
        ][..]
    );
    assert_eq!(
        state.get(ticks, entity.id, Some(&entity)).unwrap(),
        &[
            DynamicItem::Read(id(1)),
            DynamicItem::Read(id(2)),
            DynamicItem::OptionRead(None),
            DynamicItem::OptionRead(Some(id(4))),
        ][..]
    );
}
