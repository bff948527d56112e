use bevy_reflect::{FromType, ReflectFromPtr};
use bevy_ecs::component::{Component, SparseStorage, TableStorage};
use bevy_ecs::query::{Or, ReadOnlyWorldQuery, With, WorldQuery};
use bevy_ecs::world::World;
use bevy_mod_dynamic_query::{
    AndFilter, AndFilters, ComponentId, DynamicItem, DynamicQuery, Entity, EntityCell, Fetch,
    FetchData, OrFilters, Ticks,
};

fn accessor() -> ReflectFromPtr {
    <ReflectFromPtr as FromType<u32>>::from_type()
}

#[derive(Default)]
struct TableNorgTag;
#[derive(Default)]
struct TableRegTag;
#[derive(Default)]
struct TableRegSimple {
    x: usize,
}
#[derive(Default)]
struct TableRegFancy {
    zoo: usize,
    bar: Vec<u32>,
    entity: Option<u64>,
}
#[derive(Default)]
struct SetNorgTag;
#[derive(Default)]
struct SetRegTag;
#[derive(Default)]
struct SetRegSimple {
    x: usize,
}
#[derive(Default)]
struct SetRegFancy {
    zoo: usize,
    bar: Vec<u32>,
    entity: Option<u64>,
}

impl Component for TableNorgTag {
    type Storage = TableStorage;
}
impl Component for TableRegTag {
    type Storage = TableStorage;
}
impl Component for TableRegSimple {
    type Storage = TableStorage;
}
impl Component for TableRegFancy {
    type Storage = TableStorage;
}
impl Component for SetNorgTag {
    type Storage = SparseStorage;
}
impl Component for SetRegTag {
    type Storage = SparseStorage;
}
impl Component for SetRegSimple {
    type Storage = SparseStorage;
}
impl Component for SetRegFancy {
    type Storage = SparseStorage;
}

fn fancy_table(zoo: usize) -> TableRegFancy {
    TableRegFancy { zoo, bar: vec![1, 2], entity: Some(3) }
}

fn fancy_set(zoo: usize) -> SetRegFancy {
    SetRegFancy { zoo, bar: vec![4], entity: None }
}

fn test_world() -> World {
    let mut world = World::new();
    world.spawn_empty();
    world.spawn(TableRegTag);
    world.spawn(SetNorgTag);
    world.spawn((SetRegTag, fancy_table(1)));
    world.spawn((fancy_set(2), TableRegTag));
    world.spawn((SetRegSimple { x: 3 }, fancy_table(4)));
    world.spawn((TableRegTag, SetRegTag));
    world.spawn((fancy_table(5), fancy_set(6)));
    world.spawn((TableRegSimple { x: 7 }, SetRegSimple { x: 8 }));
    world.spawn(TableNorgTag);
    world.spawn(TableRegTag);
    world.spawn(fancy_table(9));
    world.spawn(TableRegSimple { x: 10 });
    world.spawn(TableNorgTag);
    world.spawn((SetNorgTag, TableNorgTag));
    world
}

fn id<C: Component>(world: &mut World) -> ComponentId {
    ComponentId::new(world.init_component::<C>().index()).unwrap()
}

fn data<C: Component>(world: &mut World) -> FetchData {
    FetchData { id: id::<C>(world), from_ptr: accessor() }
}

fn find(cells: &[Vec<EntityCell>], entity: u64) -> Option<&EntityCell> {
    cells.iter().flatten().find(|cell| cell.id == Entity(entity))
}

/// What a fetched item holds.
#[derive(Debug, PartialEq)]
enum Value {
    Fancy(usize, Vec<u32>, Option<u64>),
    Tag,
    Missing,
}

/// Reads the value of one component of an entity from the store.
type Reader = fn(&World, bevy_ecs::entity::Entity) -> Value;

fn of_table(found: &TableRegFancy) -> Value {
    Value::Fancy(found.zoo, found.bar.clone(), found.entity)
}

fn of_set(found: &SetRegFancy) -> Value {
    Value::Fancy(found.zoo, found.bar.clone(), found.entity)
}

fn read_table_fancy(world: &World, entity: bevy_ecs::entity::Entity) -> Value {
    world.get::<TableRegFancy>(entity).map_or(Value::Missing, of_table)
}

fn read_set_fancy(world: &World, entity: bevy_ecs::entity::Entity) -> Value {
    world.get::<SetRegFancy>(entity).map_or(Value::Missing, of_set)
}

fn read_table_tag(world: &World, entity: bevy_ecs::entity::Entity) -> Value {
    world.get::<TableRegTag>(entity).map_or(Value::Missing, |_| Value::Tag)
}

/// The value in the store of what `item` names for `entity`.
fn value_of(
    world: &World,
    entity: bevy_ecs::entity::Entity,
    item: &DynamicItem,
    readers: &[(ComponentId, Reader)],
) -> Value {
    let named = match item {
        DynamicItem::Entity(_) => panic!("no entity id was asked for"),
        DynamicItem::Read(id) | DynamicItem::Mut(id) => Some(*id),
        DynamicItem::OptionRead(found) | DynamicItem::OptionMut(found) => *found,
    };
    match named {
        None => Value::Missing,
        Some(id) => {
            let (_, read) = readers.iter().find(|(of, _)| *of == id).expect("a fetched component");
            read(world, entity)
        }
    }
}

/// Checks, for each entity that the store's own query `Q` filtered by `F`
/// finds, that the dynamic query has the row that `expected` makes of what
/// the store's query fetched, item by item and value by value, and that it
/// has a row for no other entity.
fn test_single_entity<Q, F>(
    mut world: World,
    query: DynamicQuery,
    readers: &[(ComponentId, Reader)],
    expected: impl Fn(Q::Item<'_>) -> Vec<(DynamicItem, Value)>,
) where
    Q: WorldQuery,
    F: ReadOnlyWorldQuery,
{
    let mut state = query.state(&mut world);
    let cells = state.entities(&world);
    let ticks = Ticks::of(&world);
    let mut store_query = world.query_filtered::<(bevy_ecs::entity::Entity, Q), F>();
    let mut found = Vec::new();
    for (entity, fetched) in store_query.iter_mut(&mut world) {
        found.push((entity, expected(fetched)));
    }
    assert!(!found.is_empty());
    for (entity, fetched) in &found {
        let cell = find(&cells, entity.to_bits()).expect("the entity's archetype is matched");
        let row = state.get_mut(ticks, cell.id, Some(cell)).unwrap().to_vec();
        let names: Vec<DynamicItem> = fetched.iter().map(|(name, _)| *name).collect();
        assert_eq!(row, names);
        for (item, (_, value)) in row.iter().zip(fetched) {
            assert_eq!(&value_of(&world, *entity, item, readers), value);
        }
    }
    // The walk hands out the entities of the store's query, and no other.
    let mut walked = Vec::new();
    let mut cursor = state.iter_mut(ticks, &cells);
    while let Some(entity) = cursor.next_entity() {
        walked.push(entity.id.0);
    }
    let mut stored: Vec<u64> = found.iter().map(|(entity, _)| entity.to_bits()).collect();
    walked.sort();
    stored.sort();
    assert_eq!(walked, stored);
    let mut rows = 0;
    let mut cursor = state.iter_mut(ticks, &cells);
    while cursor.next().is_some() {
        rows += 1;
    }
    assert_eq!(rows, found.len());
}

#[test]
fn simple_table_query() {
    let mut world = test_world();
    let fancy = data::<TableRegFancy>(&mut world);
    let query = DynamicQuery::new(vec![Fetch::Read(fancy.clone())], OrFilters::default()).unwrap();
    let readers: [(ComponentId, Reader); 1] = [(fancy.id, read_table_fancy)];
    test_single_entity::<&TableRegFancy, ()>(world, query, &readers, |in_table| {
        vec![(DynamicItem::Read(fancy.id), of_table(in_table))]
    });
}

#[test]
fn simple_sparse_query() {
    let mut world = test_world();
    let fancy = data::<SetRegFancy>(&mut world);
    let query = DynamicQuery::new(vec![Fetch::Read(fancy.clone())], OrFilters::default()).unwrap();
    let readers: [(ComponentId, Reader); 1] = [(fancy.id, read_set_fancy)];
    test_single_entity::<&SetRegFancy, ()>(world, query, &readers, |in_set| {
        vec![(DynamicItem::Read(fancy.id), of_set(in_set))]
    });
}

#[test]
fn two_fetch_sparse_query() {
    let mut world = test_world();
    let fancy = data::<SetRegFancy>(&mut world);
    let tag = data::<TableRegTag>(&mut world);
    let query = DynamicQuery::new(
        vec![Fetch::Read(fancy.clone()), Fetch::Mut(tag.clone())],
        OrFilters::default(),
    )
    .unwrap();
    let readers: [(ComponentId, Reader); 2] =
        [(fancy.id, read_set_fancy), (tag.id, read_table_tag)];
    test_single_entity::<(&SetRegFancy, &mut TableRegTag), ()>(
        world,
        query,
        &readers,
        |(in_set, _tag)| {
            vec![
                (DynamicItem::Read(fancy.id), of_set(in_set)),
                (DynamicItem::Mut(tag.id), Value::Tag),
            ]
        },
    );
}

#[test]
fn with_query() {
    let mut world = test_world();
    let fancy = data::<SetRegFancy>(&mut world);
    let with = id::<TableRegFancy>(&mut world);
    let filters = OrFilters(vec![AndFilters(vec![AndFilter::With(with)])]);
    let query = DynamicQuery::new(vec![Fetch::Read(fancy.clone())], filters).unwrap();
    let readers: [(ComponentId, Reader); 1] = [(fancy.id, read_set_fancy)];
    test_single_entity::<&SetRegFancy, With<TableRegFancy>>(world, query, &readers, |in_set| {
        vec![(DynamicItem::Read(fancy.id), of_set(in_set))]
    });
}

#[test]
fn or_query() {
    let mut world = test_world();
    let set = data::<SetRegFancy>(&mut world);
    let table = data::<TableRegFancy>(&mut world);
    let filters = OrFilters(vec![
        AndFilters(vec![AndFilter::With(set.id)]),
        AndFilters(vec![AndFilter::With(table.id)]),
    ]);
    let query = DynamicQuery::new(
        vec![Fetch::OptionRead(set.clone()), Fetch::OptionMut(table.clone())],
        filters,
    )
    .unwrap();
    let readers: [(ComponentId, Reader); 2] =
        [(set.id, read_set_fancy), (table.id, read_table_fancy)];
    test_single_entity::<
        (Option<&SetRegFancy>, Option<&mut TableRegFancy>),
        Or<(With<SetRegFancy>, With<TableRegFancy>)>,
    >(world, query, &readers, |(in_set, in_table)| {
        vec![
            (
                DynamicItem::OptionRead(in_set.map(|_| set.id)),
                in_set.map_or(Value::Missing, of_set),
            ),
            (
                DynamicItem::OptionMut(in_table.as_ref().map(|_| table.id)),
                in_table.as_ref().map_or(Value::Missing, |found| of_table(found)),
            ),
        ]
    });
}
