use bevy_reflect::{FromType, ReflectFromPtr};
use bevy_ecs::component::{Component, TableStorage};
use bevy_ecs::world::World;
use bevy_mod_dynamic_query::fetches::Fetches;
use bevy_mod_dynamic_query::filters::{Filter, FilterKind, Filters};
use bevy_mod_dynamic_query::{
    AndFilter, AndFilters, ArchetypeId, BuildError, ComponentId, ComponentTicks, DynamicItem,
    DynamicQuery, DynamicQueryError, DynamicState, Entity, EntityCell, Fetch, FetchData, OrFilters,
    Tick, Ticks,
};

fn accessor() -> ReflectFromPtr {
    <ReflectFromPtr as FromType<u32>>::from_type()
}

struct Position;
struct Velocity;
struct Tag;
struct Marker;

impl Component for Position {
    type Storage = TableStorage;
}
impl Component for Velocity {
    type Storage = TableStorage;
}
impl Component for Tag {
    type Storage = TableStorage;
}
impl Component for Marker {
    type Storage = TableStorage;
}

fn id(index: usize) -> ComponentId {
    ComponentId::new(index).unwrap()
}

fn data(index: usize) -> FetchData {
    FetchData { id: id(index), from_ptr: accessor() }
}

fn or(groups: Vec<Vec<AndFilter>>) -> OrFilters {
    OrFilters(groups.into_iter().map(AndFilters).collect())
}

fn cell(entity: u64, archetype: u32, components: &[(usize, u32, u32)]) -> EntityCell {
    EntityCell {
        id: Entity(entity),
        archetype: ArchetypeId(archetype),
        components: components
            .iter()
            .map(|&(component, added, changed)| ComponentTicks {
                component,
                added: Tick(added),
                changed: Tick(changed),
            })
            .collect(),
    }
}

fn rows(filters: &Filters) -> Vec<Vec<(FilterKind, usize)>> {
    let mut cursor = filters.conjunctions();
    let mut all = Vec::new();
    while let Some(conjunction) = cursor.next() {
        all.push(conjunction.atoms().iter().map(|a| (a.kind(), a.id().index())).collect());
    }
    all
}

#[test]
fn component_id_is_limited_to_30_bits() {
    assert_eq!(ComponentId::new(0).unwrap().index(), 0);
    assert_eq!(ComponentId::new(0x3fff_ffff).unwrap().index(), 0x3fff_ffff);
    assert!(ComponentId::new(0x4000_0000).is_none());
}

#[test]
fn filter_packs_kind_and_component() {
    let atom = Filter::new(FilterKind::Added, id(7));
    assert_eq!(atom.kind(), FilterKind::Added);
    assert_eq!(atom.id(), id(7));
    let largest = Filter::new(FilterKind::Without, id(0x3fff_ffff));
    assert_eq!(largest.kind(), FilterKind::Without);
    assert_eq!(largest.id().index(), 0x3fff_ffff);
    assert!(Filter::new(FilterKind::With, id(9)) < Filter::new(FilterKind::Changed, id(1)));
    assert!(Filter::new(FilterKind::Changed, id(9)) < Filter::new(FilterKind::Added, id(1)));
    assert!(Filter::new(FilterKind::Added, id(9)) < Filter::new(FilterKind::Without, id(1)));
    assert!(Filter::new(FilterKind::With, id(1)) < Filter::new(FilterKind::With, id(2)));
    assert_eq!(Filter::from(AndFilter::Changed(id(3))), Filter::new(FilterKind::Changed, id(3)));
}

#[test]
fn filters_sort_each_conjunction() {
    let filters = Filters::new(or(vec![
        vec![
            AndFilter::Without(id(1)),
            AndFilter::Added(id(9)),
            AndFilter::With(id(5)),
            AndFilter::Changed(id(7)),
            AndFilter::With(id(2)),
            AndFilter::Without(id(0)),
        ],
        vec![],
        vec![AndFilter::Changed(id(4))],
    ]))
    .unwrap();
    assert_eq!(filters.len(), 7);
    assert!(!filters.is_empty());
    assert_eq!(
        rows(&filters),
        vec![
            vec![
                (FilterKind::With, 2),
                (FilterKind::With, 5),
                (FilterKind::Changed, 7),
                (FilterKind::Added, 9),
                (FilterKind::Without, 0),
                (FilterKind::Without, 1),
            ],
            vec![],
            vec![(FilterKind::Changed, 4)],
        ]
    );
}

#[test]
fn filters_without_groups_have_no_conjunction() {
    let filters = Filters::new(OrFilters::default()).unwrap();
    assert!(filters.is_empty());
    assert_eq!(filters.len(), 0);
    assert!(filters.conjunctions().next().is_none());
    assert!(rows(&filters).is_empty());
    // A cursor starts over each time.
    assert_eq!(rows(&filters), rows(&filters));
    let unchecked = Filters::new_unchecked(OrFilters::default());
    assert!(unchecked.conjunctions().next().is_none());
    assert_eq!(filters.clone(), unchecked);
}

#[test]
fn a_group_without_conditions_is_an_empty_conjunction() {
    let filters = Filters::new(or(vec![vec![]])).unwrap();
    assert!(filters.is_empty());
    assert_eq!(rows(&filters), vec![vec![]]);
    assert_ne!(filters, Filters::new(OrFilters::default()).unwrap());
    let mut cursor = filters.conjunctions();
    let only = cursor.next().unwrap();
    assert!(only.in_filter(&[1, 2]));
    assert!(!only.has_tick_filter());
    assert!(cursor.next().is_none());
    assert!(cursor.next().is_none());
    let two = Filters::new(or(vec![vec![], vec![]])).unwrap();
    assert_eq!(rows(&two), vec![vec![], vec![]]);
}

#[test]
fn filters_reject_duplicate_inclusive_components() {
    let twice =
        Filters::new(or(vec![vec![AndFilter::With(id(1))], vec![
            AndFilter::With(id(3)),
            AndFilter::Changed(id(3)),
        ]]));
    assert_eq!(twice.err(), Some(BuildError::DuplicateFilter));
    let same_kind = Filters::new(or(vec![vec![AndFilter::Added(id(3)), AndFilter::Added(id(3))]]));
    assert_eq!(same_kind.err(), Some(BuildError::DuplicateFilter));
    // The same component in two conjunctions, or excluded twice, is fine.
    let fine = Filters::new(or(vec![
        vec![AndFilter::With(id(3)), AndFilter::Without(id(4)), AndFilter::Without(id(4))],
        vec![AndFilter::With(id(3)), AndFilter::Without(id(3))],
    ]));
    assert!(fine.is_ok());
}

#[test]
fn fetches_reject_duplicate_required_components_in_any_order() {
    let orders = vec![
        vec![Fetch::Read(data(1)), Fetch::Mut(data(1))],
        vec![Fetch::Mut(data(1)), Fetch::Read(data(1))],
        vec![Fetch::Read(data(1)), Fetch::Read(data(2)), Fetch::Entity, Fetch::Read(data(1))],
        vec![Fetch::Mut(data(4)), Fetch::OptionRead(data(9)), Fetch::Mut(data(4))],
    ];
    for fetches in orders {
        assert_eq!(Fetches::new(fetches).err(), Some(BuildError::DuplicateFetch));
    }
    // Optional fetches may repeat a component.
    let optional = vec![
        Fetch::Read(data(1)),
        Fetch::OptionRead(data(1)),
        Fetch::OptionMut(data(1)),
        Fetch::OptionMut(data(1)),
    ];
    assert!(Fetches::new(optional).is_ok());
}

#[test]
fn fetches_sort_into_rows() {
    let fetches = Fetches::new(vec![
        Fetch::OptionMut(data(8)),
        Fetch::Mut(data(5)),
        Fetch::Entity,
        Fetch::Read(data(7)),
        Fetch::Read(data(3)),
        Fetch::OptionRead(data(6)),
    ])
    .unwrap();
    assert!(fetches.has_entity());
    assert_eq!(fetches.len(), 6);
    let ids = |first: usize, last: usize| -> Vec<usize> {
        fetches.rows(first, last).iter().map(|c| c.id.index()).collect()
    };
    assert_eq!(ids(0, 0), vec![3, 7]);
    assert_eq!(ids(1, 1), vec![5]);
    assert_eq!(ids(2, 2), vec![6]);
    assert_eq!(ids(3, 3), vec![8]);
    assert_eq!(ids(0, 1), vec![3, 7, 5]);
    assert_eq!(ids(0, 3), vec![3, 7, 5, 6, 8]);
    assert!(fetches.all_included(&[9, 7, 5, 3]));
    assert!(!fetches.all_included(&[3, 7]));
    assert!(!fetches.all_included(&[]));
    let entity = cell(42, 0, &[(3, 0, 0), (7, 0, 0), (5, 0, 0), (8, 0, 0)]);
    let mut items = fetches.iter(&entity);
    let mut row = Vec::new();
    while let Some(item) = items.next() {
        row.push(item);
    }
    assert_eq!(
        row,
        vec![
            DynamicItem::Entity(Entity(42)),
            DynamicItem::Read(id(3)),
            DynamicItem::Read(id(7)),
            DynamicItem::Mut(id(5)),
            DynamicItem::OptionRead(None),
            DynamicItem::OptionMut(Some(id(8))),
        ]
    );
    let mut items = fetches.iter_read_only(&entity);
    let mut row = Vec::new();
    while let Some(item) = items.next() {
        row.push(item);
    }
    assert_eq!(
        row,
        vec![
            DynamicItem::Entity(Entity(42)),
            DynamicItem::Read(id(3)),
            DynamicItem::Read(id(7)),
            DynamicItem::Read(id(5)),
            DynamicItem::OptionRead(None),
            DynamicItem::OptionRead(Some(id(8))),
        ]
    );
}

#[test]
fn fetches_without_items() {
    let fetches = Fetches::new(vec![]).unwrap();
    assert!(!fetches.has_entity());
    assert_eq!(fetches.len(), 0);
    assert!(fetches.all_included(&[]));
    assert!(fetches.all_included(&[1, 2]));
}

/// Two archetypes, `{Position}` and `{Position, Velocity}`, and a
/// query that writes `Position` without conditions.
#[test]
fn iter_yields_the_entities_of_every_matching_archetype() {
    let position = 0;
    let velocity = 1;
    let query = DynamicQuery::new(vec![Fetch::Mut(data(position))], OrFilters::default()).unwrap();
    let mut state = DynamicState::detached(&query);
    // archetype 0: no components; 1: {Position}; 2: {Position, Velocity}
    state.add_archetype(&[]);
    state.add_archetype(&[position]);
    state.add_archetype(&[position, velocity]);
    let world = vec![
        vec![cell(10, 0, &[])],
        vec![cell(1, 1, &[(position, 0, 0)]), cell(2, 1, &[(position, 0, 0)])],
        vec![cell(3, 2, &[(position, 0, 0), (velocity, 0, 0)])],
    ];
    let ticks = Ticks::new(Tick(0), Tick(1));
    let mut found = Vec::new();
    let mut cursor = state.iter_mut(ticks, &world);
    while let Some(row) = cursor.next() {
        found.push(row);
    }
    assert_eq!(
        found,
        vec![
            vec![DynamicItem::Mut(id(position))],
            vec![DynamicItem::Mut(id(position))],
            vec![DynamicItem::Mut(id(position))],
        ]
    );
    let mut cursor = state.iter(ticks, &world);
    let mut count = 0;
    while let Some(row) = cursor.next() {
        assert_eq!(row, vec![DynamicItem::Read(id(position))]);
        count += 1;
    }
    assert_eq!(count, 3);
}

/// The rows of this query are all alike: only the entity that comes with a
/// row tells where it is from.
#[test]
fn next_entity_walks_archetypes_in_order_and_entities_in_storage_order() {
    let position = 0;
    let marker = 1;
    let query = DynamicQuery::new(
        vec![Fetch::Read(data(position))],
        or(vec![
            vec![AndFilter::With(id(position)), AndFilter::Without(id(marker))],
            vec![AndFilter::Changed(id(marker))],
        ]),
    )
    .unwrap();
    let mut state = DynamicState::detached(&query);
    state.add_archetype(&[position]); // 0: every entity
    state.add_archetype(&[marker]); // 1: no entity, `position` is missing
    state.add_archetype(&[position, marker]); // 2: the entities whose marker changed
    state.add_archetype(&[]); // 3
    state.add_archetype(&[position, 7]); // 4: every entity
    assert_eq!(state.matched_archetypes(), vec![0, 2, 4]);
    let fresh = |entity: u64| cell(entity, 2, &[(position, 1, 1), (marker, 1, 9)]);
    let stale = |entity: u64| cell(entity, 2, &[(position, 1, 1), (marker, 1, 2)]);
    let world = vec![
        vec![cell(30, 0, &[(position, 1, 1)]), cell(10, 0, &[(position, 1, 1)])],
        vec![cell(99, 1, &[(marker, 1, 9)])],
        vec![stale(21), fresh(25), stale(22), fresh(20), fresh(24)],
        vec![cell(98, 3, &[])],
        vec![cell(5, 4, &[(position, 1, 1), (7, 1, 1)])],
    ];
    let ticks = Ticks::new(Tick(5), Tick(10));
    let mut found = Vec::new();
    let mut cursor = state.iter(ticks, &world);
    while let Some(entity) = cursor.next_entity() {
        found.push((entity.archetype.0, entity.id.0));
    }
    assert_eq!(found, vec![(0, 30), (0, 10), (2, 25), (2, 20), (2, 24), (4, 5)]);
    assert!(cursor.next_entity().is_none());
    assert!(cursor.next().is_none());

    let mut found = Vec::new();
    let mut cursor = state.iter_mut(ticks, &world);
    while let Some(entity) = cursor.next_entity() {
        found.push(entity.id.0);
    }
    assert_eq!(found, vec![30, 10, 25, 20, 24, 5]);

    // Rows and entities come from the same walk.
    let mut cursor = state.iter(ticks, &world);
    assert_eq!(cursor.next_entity().map(|entity| entity.id.0), Some(30));
    assert_eq!(cursor.next(), Some(vec![DynamicItem::Read(id(position))]));
    assert_eq!(cursor.next_entity().map(|entity| entity.id.0), Some(25));

    // Whoever is handed out has a row in `get`, and nobody else has.
    let everyone: Vec<EntityCell> = world.iter().flatten().cloned().collect();
    for entity in &everyone {
        let walked = [30, 10, 25, 20, 24, 5].contains(&entity.id.0);
        assert_eq!(state.get(ticks, entity.id, Some(entity)).is_ok(), walked);
    }
}

/// `With(Tag)` or (`Without(Tag)` and `Added(Marker)`).
#[test]
fn added_filter_matches_only_within_the_tick_window() {
    let tag = 0;
    let marker = 1;
    let query = DynamicQuery::new(
        vec![Fetch::Entity],
        or(vec![
            vec![AndFilter::With(id(tag))],
            vec![AndFilter::Without(id(tag)), AndFilter::Added(id(marker))],
        ]),
    )
    .unwrap();
    let mut state = DynamicState::detached(&query);
    state.add_archetype(&[]); // 0
    state.add_archetype(&[tag]); // 1
    state.add_archetype(&[marker]); // 2
    state.add_archetype(&[tag, marker]); // 3

    let this_run = 10;
    let tagged = cell(1, 1, &[(tag, 2, 2)]);
    let marked = cell(2, 2, &[(marker, this_run, this_run)]);
    let bare = cell(3, 0, &[]);

    // An entity with `Tag` matches whatever the ticks are.
    for last_run in [0, 5, 10] {
        let ticks = Ticks::new(Tick(last_run), Tick(this_run));
        let row = state.get(ticks, tagged.id, Some(&tagged)).unwrap();
        assert_eq!(row, &[DynamicItem::Entity(Entity(1))][..]);
    }
    // An entity with `Marker` added at `this_run` matches within the window.
    let within = Ticks::new(Tick(9), Tick(this_run));
    assert_eq!(
        state.get(within, marked.id, Some(&marked)).unwrap(),
        &[DynamicItem::Entity(Entity(2))][..]
    );
    // Seen from a later run, the marker was added before the last run.
    let outside = Ticks::new(Tick(11), Tick(12));
    assert_eq!(
        state.get(outside, marked.id, Some(&marked)).err(),
        Some(DynamicQueryError::NotInTick(Entity(2)))
    );
    assert_eq!(
        state.get(within, bare.id, Some(&bare)).err(),
        Some(DynamicQueryError::Unmatched(Entity(3)))
    );

    let world = vec![vec![bare], vec![tagged], vec![marked], vec![]];
    let mut ids = Vec::new();
    let mut cursor = state.iter(within, &world);
    while let Some(row) = cursor.next() {
        ids.push(row);
    }
    assert_eq!(
        ids,
        vec![vec![DynamicItem::Entity(Entity(1))], vec![DynamicItem::Entity(Entity(2))]]
    );
    let mut ids = Vec::new();
    let mut cursor = state.iter(outside, &world);
    while let Some(row) = cursor.next() {
        ids.push(row);
    }
    assert_eq!(ids, vec![vec![DynamicItem::Entity(Entity(1))]]);
}

/// A deleted entity, and an entity whose archetype lacks a
/// required component.
#[test]
fn get_tells_dangling_from_unmatched() {
    let position = 4;
    let query = DynamicQuery::new(vec![Fetch::Read(data(position))], OrFilters::default()).unwrap();
    let mut state = DynamicState::detached(&query);
    state.add_archetype(&[]);
    state.add_archetype(&[position]);
    state.add_archetype(&[7]);
    let ticks = Ticks::default();
    assert_eq!(
        state.get(ticks, Entity(9), None).err(),
        Some(DynamicQueryError::Dangling(Entity(9)))
    );
    let other = cell(5, 2, &[(7, 0, 0)]);
    assert_eq!(
        state.get(ticks, other.id, Some(&other)).err(),
        Some(DynamicQueryError::Unmatched(Entity(5)))
    );
    let live = cell(6, 1, &[(position, 0, 0)]);
    assert_eq!(state.get(ticks, live.id, Some(&live)).unwrap(), &[DynamicItem::Read(id(position))][..]);
    assert_eq!(
        state.get_mut(ticks, live.id, Some(&live)).unwrap(),
        &mut [DynamicItem::Read(id(position))][..]
    );
}

#[test]
fn changed_filter_follows_the_tick_window() {
    let component = 3;
    let filters = Filters::new(or(vec![vec![AndFilter::Changed(id(component))]])).unwrap();
    let mut cursor = filters.conjunctions();
    let conjunction = cursor.next().unwrap();
    assert!(conjunction.has_tick_filter());
    let this_run = 100;
    let changed_now = cell(1, 0, &[(component, 1, this_run)]);
    // Changed at `this_run`: within the window whenever `last_run < this_run`.
    for last_run in [0, 50, 99] {
        assert!(conjunction.within_tick(Ticks::new(Tick(last_run), Tick(this_run)), &changed_now));
    }
    assert!(!conjunction.within_tick(Ticks::new(Tick(this_run), Tick(this_run)), &changed_now));
    // Changed before `last_run`: outside the window.
    let changed_long_ago = cell(2, 0, &[(component, 1, 20)]);
    assert!(!conjunction.within_tick(Ticks::new(Tick(50), Tick(this_run)), &changed_long_ago));
    assert!(conjunction.within_tick(Ticks::new(Tick(19), Tick(this_run)), &changed_long_ago));
    // The counter wraps around.
    let wrapped = cell(3, 0, &[(component, 1, u32::MAX)]);
    assert!(conjunction.within_tick(Ticks::new(Tick(u32::MAX - 1), Tick(5)), &wrapped));
    assert!(!conjunction.within_tick(Ticks::new(Tick(2), Tick(5)), &wrapped));
    // Without the component the conjunction does not hold at all.
    let lacking = cell(4, 0, &[(8, 0, this_run)]);
    assert!(!conjunction.within_tick(Ticks::new(Tick(0), Tick(this_run)), &lacking));
}

#[test]
fn state_follows_the_archetypes_of_a_world() {
    let mut world = World::new();
    let position = world.init_component::<Position>().index();
    let velocity = world.init_component::<Velocity>().index();
    let tag = world.init_component::<Tag>().index();
    world.spawn(Position);
    let query = DynamicQuery::new(
        vec![Fetch::Read(data(position))],
        or(vec![vec![AndFilter::Without(id(tag))]]),
    )
    .unwrap();
    let mut state = query.state(&mut world);
    let seen = world.archetypes().len();
    assert_eq!(state.archetypes_seen(), seen);
    let table: Vec<Vec<usize>> = world
        .archetypes()
        .iter()
        .map(|a| a.components().map(|c| c.index()).collect())
        .collect();
    let expect = |table: &Vec<Vec<usize>>| -> Vec<u32> {
        let mut expected = Vec::new();
        for (id, components) in table.iter().enumerate() {
            if components.contains(&position) && !components.contains(&tag) {
                expected.push(id as u32);
            }
        }
        expected
    };
    assert_eq!(state.matched_archetypes(), expect(&table));
    assert_eq!(state.matched_archetypes().len(), 1);

    // Nothing new: nothing changes.
    state.add_archetypes(world.archetypes());
    assert_eq!(state.archetypes_seen(), seen);
    assert_eq!(state.matched_archetypes(), expect(&table));

    world.spawn((Position, Velocity));
    world.spawn((Position, Tag));
    world.spawn((Velocity, Marker));
    state.add_archetypes(world.archetypes());
    let table: Vec<Vec<usize>> = world
        .archetypes()
        .iter()
        .map(|a| a.components().map(|c| c.index()).collect())
        .collect();
    assert!(table.iter().any(|c| c.contains(&velocity) && c.contains(&position)));
    assert_eq!(state.archetypes_seen(), world.archetypes().len());
    assert_eq!(state.matched_archetypes(), expect(&table));
    assert_eq!(state.matched_archetypes().len(), 2);

    // A state built afterwards agrees with the one that was extended.
    let fresh = DynamicState::new(&query, world.archetypes());
    assert_eq!(fresh.matched_archetypes(), state.matched_archetypes());
    assert_eq!(fresh.archetypes_seen(), state.archetypes_seen());
    let fresh = DynamicState::in_world(&query, &mut world);
    assert_eq!(fresh.matched_archetypes(), state.matched_archetypes());
    assert_eq!(fresh.archetypes_seen(), state.archetypes_seen());
}
