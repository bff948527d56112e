use bevy_reflect::{FromType, ReflectFromPtr};
use bevy_mod_dynamic_query::builder::{DynamicQueryBuilder, OrBuilder};
use bevy_mod_dynamic_query::fetches::Fetches;
use bevy_mod_dynamic_query::jagged_array::JaggedArrayBuilder;
use bevy_mod_dynamic_query::{
    ArchetypeId, BuildError, ComponentId, DynamicItem, DynamicQuery, Entity, EntityCell, Fetch,
    FetchData, OrFilters,
};
use std::any::TypeId;
use std::cmp::Ordering;

fn accessor() -> ReflectFromPtr {
    <ReflectFromPtr as FromType<u32>>::from_type()
}

fn id(index: usize) -> ComponentId {
    ComponentId::new(index).unwrap()
}

fn data(index: usize) -> FetchData {
    FetchData { id: id(index), from_ptr: accessor() }
}

fn bare(entity: u64) -> EntityCell {
    EntityCell { id: Entity(entity), archetype: ArchetypeId(0), components: vec![] }
}

#[test]
fn fetch_order_is_by_variant_then_component() {
    let in_order = vec![
        Fetch::Read(data(0)),
        Fetch::Read(data(9)),
        Fetch::Mut(data(1)),
        Fetch::Mut(data(2)),
        Fetch::OptionRead(data(0)),
        Fetch::OptionMut(data(0)),
        Fetch::OptionMut(data(5)),
        Fetch::Entity,
    ];
    for (i, left) in in_order.iter().enumerate() {
        for (j, right) in in_order.iter().enumerate() {
            assert_eq!(left.partial_cmp(right), Some(i.cmp(&j)));
            assert_eq!(left == right, i == j);
        }
    }
    assert_eq!(Fetch::Entity.partial_cmp(&Fetch::Entity), Some(Ordering::Equal));
    // The accessor takes no part in the order.
    let other = FetchData { id: id(9), from_ptr: <ReflectFromPtr as FromType<String>>::from_type() };
    assert!(Fetch::Read(other) == Fetch::Read(data(9)));
    assert_eq!(Fetch::Read(data(3)).discriminant_index(), Fetch::READ_IDX);
    assert_eq!(Fetch::Mut(data(3)).discriminant_index(), Fetch::MUT_IDX);
    assert_eq!(Fetch::OptionRead(data(3)).discriminant_index(), Fetch::OPTION_READ_IDX);
    assert_eq!(Fetch::OptionMut(data(3)).discriminant_index(), Fetch::OPTION_MUT_IDX);
    assert_eq!(Fetch::Entity.discriminant_index(), Fetch::ENTITY_IDX);
    assert_eq!(Fetch::OptionMut(data(3)).data().id, id(3));
    assert_eq!(Fetch::Mut(data(4)).component(), 4);
    assert_eq!(Fetch::Entity.component(), 0);
}

#[test]
fn fetches_keep_the_accessor_of_each_component() {
    let of = |accessor: ReflectFromPtr, index: usize| FetchData { id: id(index), from_ptr: accessor };
    let fetches = Fetches::new(vec![
        Fetch::OptionRead(of(<ReflectFromPtr as FromType<String>>::from_type(), 1)),
        Fetch::Mut(of(<ReflectFromPtr as FromType<u8>>::from_type(), 3)),
        Fetch::Read(of(<ReflectFromPtr as FromType<bool>>::from_type(), 4)),
        Fetch::Read(of(<ReflectFromPtr as FromType<u64>>::from_type(), 2)),
    ])
    .unwrap();
    let held: Vec<(usize, TypeId)> =
        fetches.rows(0, 3).iter().map(|c| (c.id.index(), c.from_ptr.type_id())).collect();
    assert_eq!(
        held,
        vec![
            (2, TypeId::of::<u64>()),
            (4, TypeId::of::<bool>()),
            (3, TypeId::of::<u8>()),
            (1, TypeId::of::<String>()),
        ]
    );
    let copy = fetches.clone();
    assert_eq!(copy.rows(1, 1)[0].from_ptr.type_id(), TypeId::of::<u8>());
}

#[test]
fn fetches_keep_empty_rows() {
    let fetches = Fetches::new(vec![Fetch::OptionRead(data(2)), Fetch::OptionRead(data(1))]).unwrap();
    assert_eq!(fetches.len(), 2);
    assert!(!fetches.has_entity());
    assert!(fetches.rows(0, 0).is_empty());
    assert!(fetches.rows(1, 1).is_empty());
    assert!(fetches.rows(0, 1).is_empty());
    assert_eq!(fetches.rows(2, 2).len(), 2);
    assert_eq!(fetches.rows(2, 2)[0].id, id(1));
    assert_eq!(fetches.rows(2, 2)[1].id, id(2));
    assert!(fetches.rows(3, 3).is_empty());
    // Optional components are not required.
    assert!(fetches.all_included(&[]));
    let only_entity = Fetches::new(vec![Fetch::Entity]).unwrap();
    assert!(only_entity.has_entity());
    assert_eq!(only_entity.len(), 1);
    let entity = bare(3);
    let mut items = only_entity.iter(&entity);
    assert_eq!(items.next(), Some(DynamicItem::Entity(Entity(3))));
    assert_eq!(items.next(), None);
    assert_eq!(items.next(), None);
}

#[test]
fn fetches_clone_fetches_the_same() {
    let fetches = Fetches::new(vec![Fetch::Mut(data(2)), Fetch::Entity, Fetch::Read(data(1))]).unwrap();
    let copy = fetches.clone();
    assert_eq!(copy.len(), 3);
    assert!(copy.has_entity());
    assert_eq!(copy.rows(0, 1).len(), 2);
    assert_eq!(copy.rows(0, 0)[0].id, id(1));
    assert_eq!(copy.rows(1, 1)[0].id, id(2));
    assert!(copy.all_included(&[2, 1]));
    assert!(!copy.all_included(&[2]));
}

#[test]
fn fetch_into_appends_the_row_of_the_entity() {
    let fetches =
        Fetches::new(vec![Fetch::OptionMut(data(4)), Fetch::Mut(data(2)), Fetch::Entity]).unwrap();
    let mut entity = bare(7);
    entity.components.push(bevy_mod_dynamic_query::ComponentTicks {
        component: 2,
        added: bevy_mod_dynamic_query::Tick(0),
        changed: bevy_mod_dynamic_query::Tick(0),
    });
    let mut buffer = vec![DynamicItem::Read(id(1))];
    fetches.fetch_into(&entity, false, &mut buffer);
    assert_eq!(
        buffer,
        vec![
            DynamicItem::Read(id(1)),
            DynamicItem::Entity(Entity(7)),
            DynamicItem::Mut(id(2)),
            DynamicItem::OptionMut(None),
        ]
    );
    fetches.fetch_into(&entity, true, &mut buffer);
    assert_eq!(
        buffer[4..],
        [DynamicItem::Entity(Entity(7)), DynamicItem::Read(id(2)), DynamicItem::OptionRead(None)]
    );
}

#[test]
fn all_included_with_many_components() {
    let wanted: Vec<Fetch> = (0..70).map(|i| Fetch::Read(data(3 * i))).collect();
    let fetches = Fetches::new(wanted).unwrap();
    let mut archetype: Vec<usize> = (0..210).rev().collect();
    assert!(fetches.all_included(&archetype));
    archetype.retain(|&c| c != 3 * 69);
    assert!(!fetches.all_included(&archetype));
    archetype.push(3 * 69);
    archetype.retain(|&c| c != 0);
    assert!(!fetches.all_included(&archetype));
}

#[test]
fn query_fails_on_the_first_fault() {
    let twice = vec![Fetch::Read(data(1)), Fetch::Mut(data(1))];
    let clash = OrFilters(vec![bevy_mod_dynamic_query::AndFilters(vec![
        bevy_mod_dynamic_query::AndFilter::With(id(1)),
        bevy_mod_dynamic_query::AndFilter::Added(id(1)),
    ])]);
    assert_eq!(
        DynamicQuery::new(twice.clone(), clash.clone()).err(),
        Some(BuildError::DuplicateFetch)
    );
    assert_eq!(
        DynamicQuery::new(vec![Fetch::Read(data(1))], clash).err(),
        Some(BuildError::DuplicateFilter)
    );
    assert_eq!(
        DynamicQuery::new(twice, OrFilters::default()).err(),
        Some(BuildError::DuplicateFetch)
    );
    let query = DynamicQuery::new(vec![Fetch::Read(data(1))], OrFilters::default()).unwrap();
    assert_eq!(query.fetches().len(), 1);
    assert!(query.filters().is_empty());
    let copy = query.clone();
    assert_eq!(copy.fetches().len(), 1);
    assert_eq!(copy.filters(), query.filters());
}

#[test]
fn builder_collects_fetches_and_conjunctions() {
    let mut tagged = OrBuilder::new();
    tagged.with_by_id(id(1)).changed_by_id(id(2));
    let mut marked = OrBuilder::new();
    marked.without_by_id(id(1)).added_by_id(id(3));
    let mut builder = DynamicQueryBuilder::new();
    let query = builder
        .optional_mut_by_id(data(9))
        .ref_by_id(data(5))
        .entity()
        .mut_by_id(data(4))
        .optional_ref_by_id(data(8))
        .or(tagged)
        .or(marked)
        .build()
        .unwrap();
    assert_eq!(query.fetches().len(), 5);
    assert!(query.fetches().has_entity());
    assert_eq!(query.fetches().rows(0, 0)[0].id, id(5));
    assert_eq!(query.fetches().rows(1, 1)[0].id, id(4));
    assert_eq!(query.fetches().rows(2, 2)[0].id, id(8));
    assert_eq!(query.fetches().rows(3, 3)[0].id, id(9));
    assert_eq!(query.filters().len(), 4);
    let mut cursor = query.filters().conjunctions();
    let first = cursor.next().unwrap();
    assert!(first.in_filter(&[1, 2]));
    assert!(!first.in_filter(&[2]));
    let second = cursor.next().unwrap();
    assert!(second.in_filter(&[3]));
    assert!(!second.in_filter(&[1, 3]));
    assert!(cursor.next().is_none());
    // The builder starts over after `build`.
    let empty = builder.build().unwrap();
    assert_eq!(empty.fetches().len(), 0);
    assert!(empty.filters().is_empty());
}

#[test]
fn builder_reports_unregistered_components_first() {
    let mut builder = DynamicQueryBuilder::new();
    builder.ref_by_id(data(1)).unregistered().mut_by_id(data(1));
    assert_eq!(builder.build().err(), Some(BuildError::UnregisteredComponent));
    builder.ref_by_id(data(1)).mut_by_id(data(1));
    assert_eq!(builder.build().err(), Some(BuildError::DuplicateFetch));
}

#[test]
fn jagged_builder_puts_pending_cells_in_the_last_row() {
    let mut builder = JaggedArrayBuilder::new();
    builder.add_elem(1);
    builder.add_elem(2);
    let single = builder.build();
    assert_eq!(single.height(), 1);
    assert_eq!(single.row(0), &[1, 2][..]);
    assert!(!single.is_empty());

    builder.add_elem(3);
    builder.add_row(vec![4]).add_row(vec![]);
    builder.add_elem(5);
    let array = builder.build();
    assert_eq!(array.height(), 2);
    assert_eq!(array.len(), 3);
    assert_eq!(array.row(0), &[3, 4][..]);
    assert_eq!(array.row(1), &[5][..]);
    let copy = array.clone();
    assert_eq!(copy, array);

    let empty = JaggedArrayBuilder::<u8>::new_with_capacity(4, 16).build();
    assert_eq!(empty.height(), 1);
    assert!(empty.is_empty());
    assert_eq!(empty.get_row(0), Some(&[][..]));
    assert_eq!(empty.get_rows(1..1), Some(&[][..]));
    assert_eq!(empty.get_rows(0..2), None);
    assert_eq!(empty.get_rows(2..2), None);
}
