use bevy_reflect::{FromType, ReflectFromPtr};
use bevy_mod_dynamic_query::fetches::Fetches;
use bevy_mod_dynamic_query::filters::{
    duplicates_in, filters, first_at_least, tick_filters, Filter, FilterKind, Filters,
};
use bevy_mod_dynamic_query::{
    AndFilter, AndFilters, ArchetypeId, ComponentId, ComponentTicks, Entity, EntityCell, Fetch,
    FetchData, OrFilters, Tick, Ticks,
};

fn accessor() -> ReflectFromPtr {
    <ReflectFromPtr as FromType<u32>>::from_type()
}

fn id(index: usize) -> ComponentId {
    ComponentId::new(index).unwrap()
}

fn atom(kind: FilterKind, index: usize) -> Filter {
    Filter::new(kind, id(index))
}

fn or(groups: Vec<Vec<AndFilter>>) -> OrFilters {
    OrFilters(groups.into_iter().map(AndFilters).collect())
}

fn cell(components: &[(usize, u32, u32)]) -> EntityCell {
    EntityCell {
        id: Entity(1),
        archetype: ArchetypeId(0),
        components: components
            .iter()
            .map(|&(component, added, changed)| ComponentTicks {
                component,
                added: Tick(added),
                changed: Tick(changed),
            })
            .collect(),
    }
}

fn mixed() -> Vec<Filter> {
    vec![
        atom(FilterKind::With, 4),
        atom(FilterKind::With, 9),
        atom(FilterKind::Changed, 2),
        atom(FilterKind::Added, 0),
        atom(FilterKind::Added, 0x3fff_ffff),
        atom(FilterKind::Without, 0),
        atom(FilterKind::Without, 6),
    ]
}

#[test]
fn filter_kind_codes() {
    assert_eq!(FilterKind::from_u32(0), FilterKind::With);
    assert_eq!(FilterKind::from_u32(1), FilterKind::Changed);
    assert_eq!(FilterKind::from_u32(2), FilterKind::Added);
    assert_eq!(FilterKind::from_u32(3), FilterKind::Without);
    for kind in [FilterKind::With, FilterKind::Changed, FilterKind::Added, FilterKind::Without] {
        assert_eq!(FilterKind::from_u32(kind.to_u32()), kind);
    }
}

#[test]
fn first_at_least_finds_the_boundary() {
    let atoms = mixed();
    assert_eq!(first_at_least(&atoms, 0), 0);
    assert_eq!(first_at_least(&atoms, 0x4000_0000), 2);
    assert_eq!(first_at_least(&atoms, 0x8000_0000), 3);
    assert_eq!(first_at_least(&atoms, 0xc000_0000), 5);
    assert_eq!(first_at_least(&atoms, u32::MAX), 7);
    assert_eq!(first_at_least(&[], 0x4000_0000), 0);
}

#[test]
fn splits_agree_with_a_pass_over_the_atoms() {
    let rows = vec![
        mixed(),
        vec![],
        vec![atom(FilterKind::Without, 1)],
        vec![atom(FilterKind::Added, 0x3fff_ffff)],
        vec![atom(FilterKind::With, 1), atom(FilterKind::With, 2)],
        vec![atom(FilterKind::Changed, 5), atom(FilterKind::Without, 5)],
    ];
    for row in rows {
        let select = |keep: &dyn Fn(FilterKind) -> bool| -> Vec<Filter> {
            row.iter().copied().filter(|a| keep(a.kind())).collect()
        };
        let (inclusive, exclusive) = filters(&row);
        assert_eq!(inclusive.atoms(), &select(&|k| k != FilterKind::Without)[..]);
        assert_eq!(exclusive.atoms(), &select(&|k| k == FilterKind::Without)[..]);
        let (changed, added) = tick_filters(&row);
        assert_eq!(changed.atoms(), &select(&|k| k == FilterKind::Changed)[..]);
        assert_eq!(added.atoms(), &select(&|k| k == FilterKind::Added)[..]);
    }
}

#[test]
fn inclusive_and_exclusive_parts_look_at_the_archetype() {
    let row = mixed();
    let (inclusive, exclusive) = filters(&row);
    assert!(!exclusive.any_excluded(&[4, 9, 2, 1]));
    assert!(exclusive.any_excluded(&[4, 6]));
    assert!(exclusive.any_excluded(&[0]));
    assert!(!exclusive.any_excluded(&[]));
    assert!(!exclusive.any_excluded(&[0x4000_0000, usize::MAX]));
    assert!(inclusive.all_included(&[0x3fff_ffff, 0, 2, 9, 4, 77]));
    let (inclusive, _) = filters(&row);
    assert!(!inclusive.all_included(&[0, 2, 9, 4]));
    let (inclusive, _) = filters(&row);
    assert!(!inclusive.all_included(&[]));
    let nothing: Vec<Filter> = vec![];
    let (inclusive, exclusive) = filters(&nothing);
    assert!(inclusive.all_included(&[]));
    assert!(!exclusive.any_excluded(&[1, 2, 3]));
}

#[test]
fn duplicates_in_looks_at_inclusive_atoms_only() {
    assert!(!duplicates_in(&mixed()));
    assert!(!duplicates_in(&[]));
    assert!(duplicates_in(&[atom(FilterKind::With, 3), atom(FilterKind::Added, 3)]));
    assert!(duplicates_in(&[
        atom(FilterKind::With, 1),
        atom(FilterKind::Changed, 3),
        atom(FilterKind::Changed, 3)
    ]));
    assert!(!duplicates_in(&[atom(FilterKind::Without, 3), atom(FilterKind::Without, 3)]));
    assert!(!duplicates_in(&[atom(FilterKind::With, 3), atom(FilterKind::Without, 3)]));
}

#[test]
fn new_unchecked_keeps_the_atoms_as_they_stand() {
    let filters = Filters::new_unchecked(or(vec![
        vec![AndFilter::With(id(1)), AndFilter::Changed(id(0)), AndFilter::Without(id(3))],
        vec![],
    ]));
    assert_eq!(filters.len(), 3);
    let mut cursor = filters.conjunctions();
    let first = cursor.next().unwrap();
    assert_eq!(
        first.atoms(),
        &[atom(FilterKind::With, 1), atom(FilterKind::Changed, 0), atom(FilterKind::Without, 3)][..]
    );
    assert_eq!(cursor.next().unwrap().atoms(), &[][..]);
    assert!(cursor.next().is_none());
    assert!(cursor.next().is_none());
}

#[test]
fn filters_clone_and_compare() {
    let filters = Filters::new(or(vec![vec![AndFilter::With(id(2)), AndFilter::With(id(1))]])).unwrap();
    let copy = filters.clone();
    assert_eq!(copy, filters);
    assert_eq!(copy.len(), 2);
    let other = Filters::new(or(vec![vec![AndFilter::With(id(2))], vec![AndFilter::With(id(1))]]));
    assert_ne!(other.unwrap(), filters);
}

#[test]
fn conjunction_includes_needs_fetches_and_filters() {
    let filters = Filters::new(or(vec![vec![
        AndFilter::With(id(1)),
        AndFilter::Without(id(2)),
        AndFilter::Added(id(3)),
    ]]))
    .unwrap();
    let fetches = Fetches::new(vec![
        Fetch::Read(FetchData { id: id(7), from_ptr: accessor() }),
        Fetch::OptionRead(FetchData { id: id(8), from_ptr: accessor() }),
    ])
    .unwrap();
    let conjunction = filters.conjunctions().next().unwrap();
    assert!(conjunction.has_tick_filter());
    assert!(conjunction.in_filter(&[1, 3]));
    assert!(conjunction.in_filter(&[3, 5, 1, 7]));
    assert!(!conjunction.in_filter(&[1, 2, 3]));
    assert!(!conjunction.in_filter(&[1]));
    assert!(!conjunction.in_filter(&[]));
    assert!(conjunction.includes(&fetches, &[1, 3, 7]));
    assert!(!conjunction.includes(&fetches, &[1, 3]));
    assert!(!conjunction.includes(&fetches, &[1, 3, 8]));
    assert!(!conjunction.includes(&fetches, &[3, 7]));
    let plain = Filters::new(or(vec![vec![AndFilter::With(id(1)), AndFilter::Without(id(2))]])).unwrap();
    assert!(!plain.conjunctions().next().unwrap().has_tick_filter());
}

#[test]
fn conjunction_within_tick_checks_every_tick_atom() {
    let filters = Filters::new(or(vec![vec![
        AndFilter::Changed(id(1)),
        AndFilter::Added(id(2)),
        AndFilter::With(id(3)),
        AndFilter::Without(id(4)),
    ]]))
    .unwrap();
    let conjunction = filters.conjunctions().next().unwrap();
    let ticks = Ticks::new(Tick(10), Tick(20));
    // (component, added, changed)
    assert!(conjunction.within_tick(ticks, &cell(&[(1, 1, 15), (2, 11, 11), (3, 0, 0)])));
    assert!(!conjunction.within_tick(ticks, &cell(&[(1, 1, 10), (2, 11, 11), (3, 0, 0)])));
    assert!(!conjunction.within_tick(ticks, &cell(&[(1, 1, 15), (2, 10, 15), (3, 0, 0)])));
    assert!(!conjunction.within_tick(ticks, &cell(&[(1, 15, 15), (2, 15, 15)])));
    assert!(!conjunction.within_tick(ticks, &cell(&[(1, 15, 15), (2, 15, 15), (3, 0, 0), (4, 0, 0)])));
    let (changed, added) = tick_filters(conjunction.atoms());
    let entity = cell(&[(1, 1, 15), (2, 5, 15)]);
    assert!(changed.within_tick(&entity, ticks));
    assert!(!added.within_tick(&entity, ticks));
    assert!(!changed.within_tick(&cell(&[(2, 15, 15)]), ticks));
}

#[test]
fn entity_cell_lookups() {
    let entity = cell(&[(5, 1, 2), (9, 3, 4), (5, 7, 8)]);
    assert_eq!(entity.component_indices(), vec![5, 9, 5]);
    assert!(entity.contains(9));
    assert!(!entity.contains(4));
    assert_eq!(
        entity.get_change_ticks(5),
        Some(ComponentTicks { component: 5, added: Tick(1), changed: Tick(2) })
    );
    assert_eq!(
        entity.get_change_ticks(9),
        Some(ComponentTicks { component: 9, added: Tick(3), changed: Tick(4) })
    );
    assert_eq!(entity.get_change_ticks(6), None);
}
