//! The compiled conditions of a query.
//!
//! A condition is packed into 32 bits: its kind in the two highest bits, the
//! component index in the 30 lowest. The atoms of one conjunction are kept
//! sorted by that number, so they are ordered by kind first and by component
//! second, and the atoms of one kind are a sub-range that a binary search
//! finds.
use crate::bits::{fixed_count_ones, fixed_enable, fixed_len, fixed_on, fixed_with_capacity};
use crate::builder::{
    count_atoms, lemma_count_atoms_prefix, AndFilter, AndFilters, BuildError, OrFilters,
};
use crate::fetches::Fetches;
use crate::jagged_array::{JaggedArray, JaggedArrayBuilder, JaggedArrayRows};
use crate::permutation::{keyed_distinct, lemma_keyed_distinct_reordered};
use crate::state::Ticks;
use crate::store::{
    has_component, is_newer_than, spec_is_newer_than, ComponentId, EntityCell,
    MAX_COMPONENT_INDEX,
};
use std::collections::HashSet;
use vstd::prelude::*;
use vstd::std_specs::convert::FromSpecImpl;

verus! {

/// What a condition asks of its component.
#[derive(Debug, Clone, Copy, PartialEq, Eq, Structural)]
pub enum FilterKind {
    /// The component is there.
    With,
    /// The component is there and changed since the last run.
    Changed,
    /// The component is there and was added since the last run.
    Added,
    /// The component is not there.
    Without,
}

impl FilterKind {
    /// The two bits that stand for the kind.
    pub open spec fn code(self) -> nat {
        match self {
            FilterKind::With => 0,
            FilterKind::Changed => 1,
            FilterKind::Added => 2,
            FilterKind::Without => 3,
        }
    }

    /// The kind that `code` stands for.
    pub open spec fn spec_from_u32(code: u32) -> FilterKind {
        if code == 0 {
            FilterKind::With
        } else if code == 1 {
            FilterKind::Changed
        } else if code == 2 {
            FilterKind::Added
        } else {
            FilterKind::Without
        }
    }

    /// The kind that `code` stands for.
    pub fn from_u32(code: u32) -> (kind: FilterKind)
        requires
            code < 4,
        ensures
            kind == Self::spec_from_u32(code),
            kind.code() == code,
    {
        match code {
            0 => FilterKind::With,
            1 => FilterKind::Changed,
            2 => FilterKind::Added,
            _ => FilterKind::Without,
        }
    }

    /// The two bits that stand for the kind.
    pub fn to_u32(self) -> (code: u32)
        ensures
            code == self.code(),
    {
        match self {
            FilterKind::With => 0,
            FilterKind::Changed => 1,
            FilterKind::Added => 2,
            FilterKind::Without => 3,
        }
    }
}

/// The kind of a condition of a query description.
pub open spec fn kind_of(atom: AndFilter) -> FilterKind {
    match atom {
        AndFilter::With(_) => FilterKind::With,
        AndFilter::Without(_) => FilterKind::Without,
        AndFilter::Changed(_) => FilterKind::Changed,
        AndFilter::Added(_) => FilterKind::Added,
    }
}

/// One condition, packed: the kind in the two most significant bits, the
/// component index below.
#[derive(Clone, Copy, Debug, PartialEq, Eq, PartialOrd, Ord)]
pub struct Filter {
    component: u32,
}

impl Filter {
    /// The bits of the component index.
    pub const MASK: u32 = 0x3fff_ffff;

    /// How far the kind is shifted.
    pub const KIND_OFFSET: u32 = 30;

    /// The packed number. Atoms are ordered by it.
    pub closed spec fn raw(self) -> u32 {
        self.component
    }

    /// The kind of the condition.
    #[verifier::opaque]
    pub open spec fn spec_kind(self) -> FilterKind {
        FilterKind::spec_from_u32(self.raw() / 0x4000_0000)
    }

    /// The index of the component that the condition is about.
    #[verifier::opaque]
    pub open spec fn spec_index(self) -> nat {
        (self.raw() % 0x4000_0000) as nat
    }

    /// The condition asks for the component to be there.
    pub open spec fn is_inclusive(self) -> bool {
        self.spec_kind() != FilterKind::Without
    }

    /// The atom of the given kind and component index.
    pub closed spec fn spec_new(kind: FilterKind, index: nat) -> Filter {
        Filter { component: (kind.code() * 0x4000_0000 + index) as u32 }
    }

    /// The atom that stands for a condition of a query description.
    pub open spec fn spec_from(atom: AndFilter) -> Filter {
        Self::spec_new(kind_of(atom), atom.spec_id()@)
    }

    /// The component that the condition is about.
    pub fn id(&self) -> (id: ComponentId)
        ensures
            id@ == self.spec_index(),
    {
        proof {
            reveal(Filter::spec_index);
        }
        let raw: u32 = self.component;
        let masked: u32 = raw & Self::MASK;
        assert(masked == raw % 0x4000_0000 && masked <= 0x3fff_ffff) by (bit_vector)
            requires
                masked == raw & 0x3fff_ffffu32,
        ;
        match ComponentId::new(masked as usize) {
            Some(id) => id,
            None => vstd::pervasive::unreached(),
        }
    }

    /// The kind of the condition.
    pub fn kind(&self) -> (kind: FilterKind)
        ensures
            kind == self.spec_kind(),
    {
        proof {
            reveal(Filter::spec_kind);
        }
        let raw: u32 = self.component;
        let unmasked: u32 = raw >> Self::KIND_OFFSET;
        assert(unmasked == raw / 0x4000_0000 && unmasked < 4) by (bit_vector)
            requires
                unmasked == raw >> 30u32,
        ;
        FilterKind::from_u32(unmasked)
    }

    /// The atom of the given kind about the given component.
    pub fn new(kind: FilterKind, id: ComponentId) -> (atom: Filter)
        ensures
            atom == Self::spec_new(kind, id@),
            atom.spec_kind() == kind,
            atom.spec_index() == id@,
            id.wf(),
    {
        proof {
            reveal(Filter::spec_kind);
            reveal(Filter::spec_index);
        }
        let code: u32 = kind.to_u32();
        let index: u32 = id.index() as u32;
        let kind_mask: u32 = code << Self::KIND_OFFSET;
        let component: u32 = kind_mask | index;
        assert(component == code * 0x4000_0000 + index) by (bit_vector)
            requires
                code < 4,
                index <= 0x3fff_ffffu32,
                kind_mask == code << 30u32,
                component == kind_mask | index,
        ;
        Filter { component }
    }
}

/// The packed number of an atom is its kind's code, times 2^30, plus the
/// component index, and the atom is the one made of its kind and index.
pub proof fn lemma_filter_packing(atom: Filter)
    ensures
        atom.raw() == atom.spec_kind().code() * 0x4000_0000 + atom.spec_index(),
        atom.spec_index() <= MAX_COMPONENT_INDEX,
        atom == Filter::spec_new(atom.spec_kind(), atom.spec_index()),
{
    reveal(Filter::spec_kind);
    reveal(Filter::spec_index);
}

/// An atom made of a kind and an index within range holds both.
pub proof fn lemma_filter_new(kind: FilterKind, index: nat)
    requires
        index <= MAX_COMPONENT_INDEX,
    ensures
        Filter::spec_new(kind, index).spec_kind() == kind,
        Filter::spec_new(kind, index).spec_index() == index,
        Filter::spec_new(kind, index).raw() == kind.code() * 0x4000_0000 + index,
{
    reveal(Filter::spec_kind);
    reveal(Filter::spec_index);
}

impl Filter {
    /// The atom that stands for a condition of a query description.
    pub fn pack(value: AndFilter) -> (atom: Filter)
        ensures
            atom == Filter::spec_from(value),
            value.spec_id().wf(),
    {
        match value {
            AndFilter::With(id) => Self::new(FilterKind::With, id),
            AndFilter::Without(id) => Self::new(FilterKind::Without, id),
            AndFilter::Changed(id) => Self::new(FilterKind::Changed, id),
            AndFilter::Added(id) => Self::new(FilterKind::Added, id),
        }
    }
}

impl From<AndFilter> for Filter {
    fn from(value: AndFilter) -> (atom: Filter) {
        Filter::pack(value)
    }
}

impl FromSpecImpl<AndFilter> for Filter {
    open spec fn obeys_from_spec() -> bool {
        true
    }

    open spec fn from_spec(value: AndFilter) -> Filter {
        Filter::spec_from(value)
    }
}

/// The atoms are in ascending order of their packed numbers: by kind, and
/// within a kind by component.
#[verifier::opaque]
pub open spec fn sorted_atoms(atoms: Seq<Filter>) -> bool {
    forall|i: int, j: int| 0 <= i <= j < atoms.len() ==> atoms[i].raw() <= atoms[j].raw()
}

/// The key by which inclusive atoms must differ: the component index, for the
/// atoms that ask for a component to be there.
pub open spec fn inclusive_key() -> spec_fn(Filter) -> Option<nat> {
    |atom: Filter|
        if atom.is_inclusive() {
            Some(atom.spec_index())
        } else {
            None
        }
}

/// No component is asked for twice by the inclusive atoms.
#[verifier::opaque]
pub open spec fn distinct_inclusive(atoms: Seq<Filter>) -> bool {
    keyed_distinct(atoms, inclusive_key())
}

/// The atoms can stand as one conjunction: sorted, and without a component
/// that two inclusive atoms ask for.
pub open spec fn valid_conjunction(atoms: Seq<Filter>) -> bool {
    sorted_atoms(atoms) && distinct_inclusive(atoms)
}

/// The atoms that stand for the conditions of one group, in the group's order.
pub open spec fn packed(group: Seq<AndFilter>) -> Seq<Filter> {
    group.map_values(|atom: AndFilter| Filter::spec_from(atom))
}

/// `row` is what the conditions of `group` compile to: the same atoms, sorted.
pub open spec fn compiles_to(group: Seq<AndFilter>, row: Seq<Filter>) -> bool {
    sorted_atoms(row) && row.to_multiset() == packed(group).to_multiset()
}

/// Two inclusive conditions of `group` are about the same component.
pub open spec fn has_duplicate(group: Seq<AndFilter>) -> bool {
    exists|i: int, j: int|
        0 <= i < group.len() && 0 <= j < group.len() && i != j && group[i].is_inclusive()
            && group[j].is_inclusive() && group[i].spec_id() == group[j].spec_id()
}

/// Sorts the atoms by their packed numbers.
///
/// Calls `sort_unstable_by_key` of std's slices with the packed number as the
/// key. Std documents that the slice is sorted by the key afterwards; a sort
/// in place reorders the items and neither adds nor drops one.
#[verifier::external_body]
fn sort_atoms(atoms: &mut Vec<Filter>)
    ensures
        sorted_atoms(final(atoms)@),
        final(atoms)@.to_multiset() == old(atoms)@.to_multiset(),
{
    atoms.sort_unstable_by_key(|atom| atom.component);
}

/// Whether two inclusive atoms are about the same component.
pub fn duplicates_in(filters: &[Filter]) -> (found: bool)
    ensures
        found == !distinct_inclusive(filters@),
{
    broadcast use vstd::std_specs::hash::group_hash_axioms;

    let mut encountered: HashSet<u32> = HashSet::with_capacity(filters.len());
    let mut i: usize = 0;
    proof {
        reveal(distinct_inclusive);
    }
    while i < filters.len()
        invariant
            i <= filters.len(),
            distinct_inclusive(filters@.take(i as int)),
            forall|index: u32|
                encountered@.contains(index) <==> exists|k: int|
                    0 <= k < i && filters@[k].is_inclusive() && filters@[k].spec_index() == index,
        decreases filters.len() - i,
    {
        let atom: Filter = filters[i];
        let ghost seen = filters@.take(i as int);
        let ghost next = filters@.take(i + 1);
        proof {
            reveal(distinct_inclusive);
        }
        if atom.kind() != FilterKind::Without {
            let index: u32 = atom.id().index() as u32;
            let fresh: bool = encountered.insert(index);
            if !fresh {
                proof {
                    let k = choose|k: int|
                        0 <= k < i && filters@[k].is_inclusive() && filters@[k].spec_index()
                            == index;
                    assert(inclusive_key()(filters@[k]) == inclusive_key()(filters@[i as int]));
                }
                return true;
            }
            proof {
                assert forall|a: int, b: int|
                    0 <= a < next.len() && 0 <= b < next.len() && a != b && inclusive_key()(
                        next[a],
                    ) is Some implies inclusive_key()(next[a]) != inclusive_key()(next[b]) by {
                    if a < i && b < i {
                        assert(seen[a] == next[a] && seen[b] == next[b]);
                    }
                }
            }
        } else {
            proof {
                assert forall|a: int, b: int|
                    0 <= a < next.len() && 0 <= b < next.len() && a != b && inclusive_key()(
                        next[a],
                    ) is Some implies inclusive_key()(next[a]) != inclusive_key()(next[b]) by {
                    if a < i && b < i {
                        assert(seen[a] == next[a] && seen[b] == next[b]);
                    }
                }
            }
        }
        i += 1;
    }
    proof {
        assert(filters@.take(i as int) =~= filters@);
    }
    false
}

/// The packed atoms of a group have a duplicate exactly when the group has.
pub proof fn lemma_packed_duplicates(group: Seq<AndFilter>)
    requires
        forall|i: int| 0 <= i < group.len() ==> (#[trigger] group[i]).spec_id().wf(),
    ensures
        has_duplicate(group) == !distinct_inclusive(packed(group)),
{
    reveal(distinct_inclusive);
    let atoms = packed(group);
    assert forall|i: int| 0 <= i < group.len() implies (#[trigger] atoms[i]).is_inclusive()
        == group[i].is_inclusive() && atoms[i].spec_index() == group[i].spec_id()@ by {
        lemma_filter_new(kind_of(group[i]), group[i].spec_id()@);
    }
    if has_duplicate(group) {
        let (i, j) = choose|i: int, j: int|
            0 <= i < group.len() && 0 <= j < group.len() && i != j && group[i].is_inclusive()
                && group[j].is_inclusive() && group[i].spec_id() == group[j].spec_id();
        assert(inclusive_key()(atoms[i]) == inclusive_key()(atoms[j]));
    }
    if !distinct_inclusive(atoms) {
        let (i, j) = choose|i: int, j: int|
            0 <= i < atoms.len() && 0 <= j < atoms.len() && i != j && inclusive_key()(
                atoms[i],
            ) is Some && inclusive_key()(atoms[i]) == inclusive_key()(atoms[j]);
        crate::store::lemma_component_id_by_index(group[i].spec_id(), group[j].spec_id());
        assert(group[i].is_inclusive() && group[j].is_inclusive());
    }
}

/// How many conditions `groups` hold together.
fn atom_total(groups: &Vec<AndFilters>) -> (total: usize)
    requires
        count_atoms(groups@) <= u32::MAX,
    ensures
        total == count_atoms(groups@),
{
    let mut total: usize = 0;
    let mut g: usize = 0;
    while g < groups.len()
        invariant
            g <= groups.len(),
            count_atoms(groups@) <= u32::MAX,
            total == count_atoms(groups@.take(g as int)),
        decreases groups.len() - g,
    {
        proof {
            lemma_count_atoms_prefix(groups@, g as int);
            lemma_count_atoms_prefix(groups@, g + 1);
        }
        total = total + groups[g].0.len();
        g += 1;
    }
    proof {
        assert(groups@.take(g as int) =~= groups@);
    }
    total
}

/// The compiled conditions of a query: conjunctions of which one must hold.
///
/// Each row is one conjunction, a sorted run of atoms without a component that
/// two inclusive atoms ask for. `Filters` without any conjunction keep every
/// entity, and so do `Filters` without any atom.
#[derive(Debug, PartialEq, Eq)]
pub struct Filters {
    /// The atoms, one row per conjunction. An array of rows always has a
    /// row: without conjunctions it is a single row without atoms.
    rows: JaggedArray<Filter>,
    /// Whether there is no conjunction at all.
    vacant: bool,
}

impl View for Filters {
    type V = Seq<Seq<Filter>>;

    /// The conjunctions, each a sequence of atoms.
    closed spec fn view(&self) -> Seq<Seq<Filter>> {
        if self.vacant {
            Seq::empty()
        } else {
            self.rows@
        }
    }
}

impl Filters {
    /// Every row can stand as one conjunction, and without conjunctions
    /// there are no atoms.
    #[verifier::type_invariant]
    pub closed spec fn wf(&self) -> bool {
        &&& self.rows.wf()
        &&& forall|i: int| 0 <= i < self.rows@.len() ==> valid_conjunction(#[trigger] self.rows@[i])
        &&& self.vacant ==> self.rows.cells().len() == 0
    }

    /// How many atoms the conjunctions hold together.
    pub closed spec fn atom_count(&self) -> nat {
        self.rows.cells().len()
    }

    /// How many atoms the conjunctions hold together.
    pub fn len(&self) -> (n: usize)
        ensures
            n == self.atom_count(),
    {
        self.rows.len()
    }

    /// Whether no conjunction holds any atom.
    pub fn is_empty(&self) -> (b: bool)
        ensures
            b == (self.atom_count() == 0),
    {
        self.rows.is_empty()
    }

    /// Compiles a query's conditions: packs the atoms of each group and sorts
    /// them.
    ///
    /// It fails when two inclusive conditions of one group are about the same
    /// component. Rows are addressed by 32-bit offsets, so the groups may hold
    /// `u32::MAX` conditions at most.
    pub fn new(filters: OrFilters) -> (made: Result<Self, BuildError>)
        requires
            filters.atom_count() <= u32::MAX,
        ensures
            made is Err <==> exists|g: int|
                0 <= g < filters.0@.len() && has_duplicate(#[trigger] filters.0@[g].0@),
            made matches Err(error) ==> error == BuildError::DuplicateFilter,
            made matches Ok(compiled) ==> {
                &&& compiled.wf()
                &&& compiled.atom_count() == filters.atom_count()
                &&& compiled@.len() == filters.0@.len()
                &&& forall|g: int|
                    0 <= g < filters.0@.len() ==> compiles_to(
                        #[trigger] filters.0@[g].0@,
                        compiled@[g],
                    )
            },
    {
        let groups: &Vec<AndFilters> = &filters.0;
        let cell_count: usize = atom_total(groups);
        let mut builder: JaggedArrayBuilder<Filter> = JaggedArrayBuilder::new_with_capacity(
            groups.len(),
            cell_count,
        );
        let mut g: usize = 0;
        while g < groups.len()
            invariant
                g <= groups.len(),
                groups@ == filters.0@,
                count_atoms(groups@) <= u32::MAX,
                builder.rows().len() == g,
                builder.pending() == Seq::<Filter>::empty(),
                builder.cell_count() == count_atoms(groups@.take(g as int)),
                forall|k: int| 0 <= k < g ==> !has_duplicate(#[trigger] groups@[k].0@),
                forall|k: int|
                    0 <= k < g ==> compiles_to(#[trigger] groups@[k].0@, builder.rows()[k]),
                forall|k: int| 0 <= k < g ==> valid_conjunction(#[trigger] builder.rows()[k]),
            decreases groups.len() - g,
        {
            let group: &Vec<AndFilter> = &groups[g].0;
            let mut atoms: Vec<Filter> = Vec::with_capacity(group.len());
            let mut k: usize = 0;
            while k < group.len()
                invariant
                    k <= group.len(),
                    atoms@ == packed(group@.take(k as int)),
                    forall|a: int| 0 <= a < k ==> (#[trigger] group@[a]).spec_id().wf(),
                decreases group.len() - k,
            {
                atoms.push(Filter::pack(group[k]));
                proof {
                    assert(group@.take(k + 1).drop_last() =~= group@.take(k as int));
                    assert(atoms@ =~= packed(group@.take(k + 1)));
                }
                k += 1;
            }
            proof {
                assert(group@.take(k as int) =~= group@);
                lemma_packed_duplicates(group@);
                lemma_count_atoms_prefix(groups@, g as int);
                lemma_count_atoms_prefix(groups@, g + 1);
            }
            if duplicates_in(atoms.as_slice()) {
                assert(has_duplicate(groups@[g as int].0@));
                return Err(BuildError::DuplicateFilter);
            }
            let ghost unsorted = atoms@;
            sort_atoms(&mut atoms);
            proof {
                reveal(distinct_inclusive);
                lemma_keyed_distinct_reordered(unsorted, atoms@, inclusive_key());
                atoms@.to_multiset_ensures();
                unsorted.to_multiset_ensures();
            }
            let ghost before = builder.rows();
            let ghost sorted = atoms@;
            assert(compiles_to(group@, sorted));
            assert(valid_conjunction(sorted));
            builder.add_row(atoms);
            proof {
                assert(builder.rows() =~= before.push(sorted));
                assert forall|k: int| 0 <= k < g + 1 implies compiles_to(
                    #[trigger] groups@[k].0@,
                    builder.rows()[k],
                ) by {
                    if k < g {
                        assert(builder.rows()[k] == before[k]);
                    }
                }
                assert forall|k: int| 0 <= k < g + 1 implies valid_conjunction(
                    #[trigger] builder.rows()[k],
                ) by {
                    if k < g {
                        assert(builder.rows()[k] == before[k]);
                    }
                }
            }
            g += 1;
        }
        proof {
            assert(groups@.take(g as int) =~= groups@);
        }
        let ghost rows = builder.rows();
        let array: JaggedArray<Filter> = builder.build();
        proof {
            use_type_invariant(&array);
            if rows.len() > 0 {
                assert(rows.last() + Seq::<Filter>::empty() =~= rows.last());
                assert(array@ =~= rows);
            } else {
                reveal(sorted_atoms);
                reveal(distinct_inclusive);
                assert(array@[0] =~= Seq::<Filter>::empty());
            }
            assert forall|i: int| 0 <= i < array@.len() implies valid_conjunction(
                #[trigger] array@[i],
            ) by {
                if rows.len() > 0 {
                    assert(array@[i] == rows[i]);
                }
            }
        }
        Ok(Filters { rows: array, vacant: groups.len() == 0 })
    }
}

impl Filters {
    /// Packs conditions that are known to be in order: the atoms of each
    /// group are kept as they stand.
    ///
    /// The packed atoms of each group must be sorted, and no two inclusive
    /// conditions of a group may be about the same component. The groups may
    /// hold `u32::MAX` conditions at most.
    pub fn new_unchecked(filters: OrFilters) -> (compiled: Self)
        requires
            filters.atom_count() <= u32::MAX,
            forall|g: int|
                0 <= g < filters.0@.len() ==> sorted_atoms(packed(#[trigger] filters.0@[g].0@))
                    && !has_duplicate(filters.0@[g].0@),
        ensures
            compiled.wf(),
            compiled.atom_count() == filters.atom_count(),
            compiled@.len() == filters.0@.len(),
            forall|g: int|
                0 <= g < filters.0@.len() ==> compiled@[g] == packed(#[trigger] filters.0@[g].0@),
    {
        let groups: &Vec<AndFilters> = &filters.0;
        let cell_count: usize = atom_total(groups);
        let mut builder: JaggedArrayBuilder<Filter> = JaggedArrayBuilder::new_with_capacity(
            groups.len(),
            cell_count,
        );
        let mut g: usize = 0;
        while g < groups.len()
            invariant
                g <= groups.len(),
                groups@ == filters.0@,
                count_atoms(groups@) <= u32::MAX,
                forall|k: int|
                    0 <= k < groups@.len() ==> sorted_atoms(packed(#[trigger] groups@[k].0@))
                        && !has_duplicate(groups@[k].0@),
                builder.rows().len() == g,
                builder.pending() == Seq::<Filter>::empty(),
                builder.cell_count() == count_atoms(groups@.take(g as int)),
                forall|k: int| 0 <= k < g ==> builder.rows()[k] == packed(#[trigger] groups@[k].0@),
                forall|k: int| 0 <= k < g ==> valid_conjunction(#[trigger] builder.rows()[k]),
            decreases groups.len() - g,
        {
            let group: &Vec<AndFilter> = &groups[g].0;
            let mut atoms: Vec<Filter> = Vec::with_capacity(group.len());
            let mut k: usize = 0;
            while k < group.len()
                invariant
                    k <= group.len(),
                    atoms@ == packed(group@.take(k as int)),
                    forall|a: int| 0 <= a < k ==> (#[trigger] group@[a]).spec_id().wf(),
                decreases group.len() - k,
            {
                atoms.push(Filter::pack(group[k]));
                proof {
                    assert(group@.take(k + 1).drop_last() =~= group@.take(k as int));
                    assert(atoms@ =~= packed(group@.take(k + 1)));
                }
                k += 1;
            }
            proof {
                assert(group@.take(k as int) =~= group@);
                assert(sorted_atoms(packed(groups@[g as int].0@)));
                lemma_packed_duplicates(group@);
                lemma_count_atoms_prefix(groups@, g as int);
                lemma_count_atoms_prefix(groups@, g + 1);
            }
            let ghost before = builder.rows();
            let ghost row = atoms@;
            builder.add_row(atoms);
            proof {
                assert(builder.rows() =~= before.push(row));
                assert forall|k: int| 0 <= k < g + 1 implies builder.rows()[k] == packed(
                    #[trigger] groups@[k].0@,
                ) by {
                    if k < g {
                        assert(builder.rows()[k] == before[k]);
                    }
                }
                assert forall|k: int| 0 <= k < g + 1 implies valid_conjunction(
                    #[trigger] builder.rows()[k],
                ) by {
                    if k < g {
                        assert(builder.rows()[k] == before[k]);
                    }
                }
            }
            g += 1;
        }
        proof {
            assert(groups@.take(g as int) =~= groups@);
        }
        let ghost rows = builder.rows();
        let array: JaggedArray<Filter> = builder.build();
        proof {
            use_type_invariant(&array);
            if rows.len() > 0 {
                assert(rows.last() + Seq::<Filter>::empty() =~= rows.last());
                assert(array@ =~= rows);
            } else {
                reveal(sorted_atoms);
                reveal(distinct_inclusive);
                assert(array@[0] =~= Seq::<Filter>::empty());
            }
            assert forall|i: int| 0 <= i < array@.len() implies valid_conjunction(
                #[trigger] array@[i],
            ) by {
                if rows.len() > 0 {
                    assert(array@[i] == rows[i]);
                }
            }
        }
        Filters { rows: array, vacant: groups.len() == 0 }
    }

    /// A cursor over the conjunctions, from the first one on.
    pub fn conjunctions(&self) -> (cursor: Conjunctions<'_>)
        ensures
            cursor.rows() == self@,
            cursor.position() == 0,
    {
        proof {
            use_type_invariant(self);
        }
        Conjunctions { cursor: self.rows.rows_iter(), vacant: self.vacant }
    }
}

/// Every conjunction of compiled filters is sorted and asks for no component
/// twice. Atoms stand in a conjunction, and without atoms every conjunction
/// is empty.
pub proof fn lemma_filters_rows(filters: Filters)
    requires
        filters.wf(),
    ensures
        forall|c: int| 0 <= c < filters@.len() ==> valid_conjunction(#[trigger] filters@[c]),
        filters.atom_count() > 0 ==> filters@.len() > 0,
        filters.atom_count() == 0 ==> forall|c: int|
            0 <= c < filters@.len() ==> (#[trigger] filters@[c]).len() == 0,
{
    crate::jagged_array::lemma_rows_within(filters.rows);
}

impl Clone for Filters {
    /// A copy with the same conjunctions.
    fn clone(&self) -> (copy: Self)
        ensures
            copy@ == self@,
            copy.atom_count() == self.atom_count(),
    {
        proof {
            use_type_invariant(self);
        }
        let array: JaggedArray<Filter> = self.rows.clone();
        proof {
            use_type_invariant(&array);
            assert(array.cells() =~= self.rows.cells());
            assert(array@ =~= self.rows@);
        }
        Filters { rows: array, vacant: self.vacant }
    }
}

/// A cursor over the conjunctions of [`Filters`].
#[derive(Debug)]
pub struct Conjunctions<'a> {
    cursor: JaggedArrayRows<'a, Filter>,
    /// Whether there is no conjunction to walk.
    vacant: bool,
}

impl<'a> Conjunctions<'a> {
    /// The conjunctions that the cursor walks.
    pub closed spec fn rows(&self) -> Seq<Seq<Filter>> {
        if self.vacant {
            Seq::empty()
        } else {
            self.cursor.array()@
        }
    }

    /// The index of the conjunction that `next` hands out.
    pub closed spec fn position(&self) -> nat {
        if self.vacant {
            0
        } else {
            self.cursor.position()
        }
    }

    /// Every row that the cursor walks can stand as one conjunction.
    #[verifier::type_invariant]
    pub closed spec fn wf(&self) -> bool {
        forall|i: int|
            0 <= i < self.cursor.array()@.len() ==> valid_conjunction(
                #[trigger] self.cursor.array()@[i],
            )
    }

    /// The next conjunction, or `None` after the last one.
    pub fn next(&mut self) -> (conjunction: Option<Conjunction<'a>>)
        ensures
            final(self).rows() == old(self).rows(),
            old(self).position() < old(self).rows().len() ==> conjunction is Some
                && conjunction.unwrap()@ == old(self).rows()[old(self).position() as int]
                && final(self).position() == old(self).position() + 1,
            old(self).position() >= old(self).rows().len() ==> conjunction is None
                && final(self).position() == old(self).position(),
    {
        proof {
            use_type_invariant(&*self);
        }
        if self.vacant {
            return None;
        }
        let mut taken: JaggedArrayRows<'a, Filter> = self.cursor.restart();
        std::mem::swap(&mut self.cursor, &mut taken);
        let row: Option<&'a [Filter]> = taken.next();
        self.cursor = taken;
        match row {
            Some(filters) => Some(Conjunction { filters }),
            None => None,
        }
    }
}

/// A slice of a sorted sequence by the places where a property holds: when the
/// property holds exactly from `from` up to `to`, the items that have it are
/// the sub-range between the two.
pub proof fn lemma_filter_is_subrange<A>(
    items: Seq<A>,
    pred: spec_fn(A) -> bool,
    from: int,
    to: int,
)
    requires
        0 <= from <= to <= items.len(),
        forall|i: int| 0 <= i < items.len() ==> (pred(#[trigger] items[i]) <==> from <= i < to),
    ensures
        items.filter(pred) == items.subrange(from, to),
    decreases items.len(),
{
    reveal(Seq::filter);
    if items.len() == 0 {
        assert(items.filter(pred) =~= items.subrange(from, to));
    } else {
        let rest = items.drop_last();
        let last = items.len() - 1;
        assert forall|i: int| 0 <= i < rest.len() implies rest[i] == items[i] by {}
        if pred(items.last()) {
            assert(to == items.len());
            assert forall|i: int| 0 <= i < rest.len() implies (pred(#[trigger] rest[i]) <==> from
                <= i < last) by {
                assert(rest[i] == items[i]);
            }
            lemma_filter_is_subrange(rest, pred, from, last);
            assert(rest.subrange(from, last).push(items.last()) =~= items.subrange(from, to));
        } else if to < items.len() {
            assert forall|i: int| 0 <= i < rest.len() implies (pred(#[trigger] rest[i]) <==> from
                <= i < to) by {
                assert(rest[i] == items[i]);
            }
            lemma_filter_is_subrange(rest, pred, from, to);
            assert(rest.subrange(from, to) =~= items.subrange(from, to));
        } else {
            assert(from == to);
            assert forall|i: int| 0 <= i < rest.len() implies (pred(#[trigger] rest[i]) <==> last
                <= i < last) by {
                assert(rest[i] == items[i]);
            }
            lemma_filter_is_subrange(rest, pred, last, last);
            assert(rest.subrange(last, last) =~= items.subrange(from, to));
        }
    }
}

/// The first place, in sorted atoms, of an atom whose packed number is at
/// least `bound`; the number of atoms if there is none. Found by bisection.
pub fn first_at_least(atoms: &[Filter], bound: u32) -> (at: usize)
    requires
        sorted_atoms(atoms@),
    ensures
        at <= atoms@.len(),
        forall|i: int| 0 <= i < at ==> atoms@[i].raw() < bound,
        forall|i: int| at <= i < atoms@.len() ==> atoms@[i].raw() >= bound,
{
    let mut low: usize = 0;
    let mut high: usize = atoms.len();
    while low < high
        invariant
            low <= high <= atoms@.len(),
            sorted_atoms(atoms@),
            forall|i: int| 0 <= i < low ==> atoms@[i].raw() < bound,
            forall|i: int| high <= i < atoms@.len() ==> atoms@[i].raw() >= bound,
        decreases high - low,
    {
        let middle: usize = low + (high - low) / 2;
        proof {
            reveal(sorted_atoms);
        }
        if atoms[middle].component < bound {
            low = middle + 1;
        } else {
            high = middle;
        }
    }
    low
}

/// The smallest packed number of a `Changed` atom.
pub const CHANGED_FLOOR: u32 = 0x4000_0000;

/// The smallest packed number of an `Added` atom.
pub const ADDED_FLOOR: u32 = 0x8000_0000;

/// The smallest packed number of a `Without` atom.
pub const WITHOUT_FLOOR: u32 = 0xc000_0000;

/// The atoms of a conjunction that ask for a component to be there.
pub struct InclusiveFilter<'a>(&'a [Filter]);

/// The atoms of a conjunction that ask for a component not to be there.
pub struct ExclusiveFilter<'a>(&'a [Filter]);

/// The atoms of a conjunction that ask for a changed component.
pub struct ChangedFilter<'a>(&'a [Filter]);

/// The atoms of a conjunction that ask for an added component.
pub struct AddedFilter<'a>(&'a [Filter]);

/// The property of being an inclusive atom.
pub open spec fn inclusive() -> spec_fn(Filter) -> bool {
    |atom: Filter| atom.is_inclusive()
}

/// The property of being an exclusive atom.
pub open spec fn exclusive() -> spec_fn(Filter) -> bool {
    |atom: Filter| !atom.is_inclusive()
}

/// The property of being an atom of the kind `kind`.
pub open spec fn of_kind(kind: FilterKind) -> spec_fn(Filter) -> bool {
    |atom: Filter| atom.spec_kind() == kind
}

/// No two of the atoms are about the same component.
#[verifier::opaque]
pub open spec fn distinct_indices(atoms: Seq<Filter>) -> bool {
    forall|i: int, j: int|
        0 <= i < j < atoms.len() ==> atoms[i].spec_index() != atoms[j].spec_index()
}

/// None of the atoms is inclusive.
#[verifier::opaque]
pub open spec fn all_exclusive(atoms: Seq<Filter>) -> bool {
    forall|i: int| 0 <= i < atoms.len() ==> !(#[trigger] atoms[i]).is_inclusive()
}

/// An atom is inclusive exactly when its packed number is below the smallest
/// number of a `Without` atom.
pub proof fn lemma_inclusive_by_raw(atom: Filter)
    ensures
        atom.is_inclusive() <==> atom.raw() < WITHOUT_FLOOR,
        atom.spec_kind() == FilterKind::Changed <==> CHANGED_FLOOR <= atom.raw() < ADDED_FLOOR,
        atom.spec_kind() == FilterKind::Added <==> ADDED_FLOOR <= atom.raw() < WITHOUT_FLOOR,
{
    reveal(Filter::spec_kind);
}

/// Every one of the atoms is inclusive.
#[verifier::opaque]
pub open spec fn all_inclusive(atoms: Seq<Filter>) -> bool {
    forall|i: int| 0 <= i < atoms.len() ==> (#[trigger] atoms[i]).is_inclusive()
}

/// Cutting a conjunction at its first exclusive atom gives the inclusive
/// atoms, which are about different components, and the exclusive atoms,
/// which are sorted.
proof fn lemma_split_conjunction(all: Seq<Filter>, cut: int)
    requires
        valid_conjunction(all),
        0 <= cut <= all.len(),
        forall|i: int| 0 <= i < cut ==> all[i].raw() < WITHOUT_FLOOR,
        forall|i: int| cut <= i < all.len() ==> all[i].raw() >= WITHOUT_FLOOR,
    ensures
        distinct_indices(all.subrange(0, cut)),
        all_inclusive(all.subrange(0, cut)),
        sorted_atoms(all.subrange(cut, all.len() as int)),
        all_exclusive(all.subrange(cut, all.len() as int)),
{
    reveal(sorted_atoms);
    reveal(distinct_inclusive);
    reveal(distinct_indices);
    reveal(all_exclusive);
    reveal(all_inclusive);
    let first = all.subrange(0, cut);
    let second = all.subrange(cut, all.len() as int);
    assert forall|i: int, j: int| 0 <= i < j < first.len() implies first[i].spec_index()
        != first[j].spec_index() by {
        lemma_inclusive_by_raw(all[i]);
        lemma_inclusive_by_raw(all[j]);
        assert(inclusive_key()(all[i]) is Some);
        assert(inclusive_key()(all[i]) != inclusive_key()(all[j]));
    }
    assert forall|i: int, j: int| 0 <= i <= j < second.len() implies second[i].raw()
        <= second[j].raw() by {
        assert(all[cut + i].raw() <= all[cut + j].raw());
    }
    assert forall|i: int| 0 <= i < second.len() implies !(#[trigger] second[i]).is_inclusive() by {
        lemma_inclusive_by_raw(all[cut + i]);
    }
    assert forall|i: int| 0 <= i < cut implies (#[trigger] first[i]).is_inclusive() by {
        lemma_inclusive_by_raw(all[i]);
    }
}

/// A cut of `row` into inclusive atoms, then exclusive atoms, is what a pass
/// over `row` would select: the first part is the atoms of `row` that are
/// inclusive, the second part those that are not.
pub proof fn lemma_split_is_selection(row: Seq<Filter>, cut: int)
    requires
        0 <= cut <= row.len(),
        all_inclusive(row.subrange(0, cut)),
        all_exclusive(row.subrange(cut, row.len() as int)),
    ensures
        row.filter(inclusive()) == row.subrange(0, cut),
        row.filter(exclusive()) == row.subrange(cut, row.len() as int),
{
    reveal(all_exclusive);
    reveal(all_inclusive);
    assert forall|i: int| 0 <= i < row.len() implies (inclusive()(#[trigger] row[i]) <==> 0 <= i
        < cut) by {
        if i < cut {
            assert(row.subrange(0, cut)[i] == row[i]);
        } else {
            assert(row.subrange(cut, row.len() as int)[i - cut] == row[i]);
        }
    }
    assert forall|i: int| 0 <= i < row.len() implies (exclusive()(#[trigger] row[i]) <==> cut <= i
        < row.len()) by {
        if i < cut {
            assert(row.subrange(0, cut)[i] == row[i]);
        } else {
            assert(row.subrange(cut, row.len() as int)[i - cut] == row[i]);
        }
    }
    lemma_filter_is_subrange(row, inclusive(), 0, cut);
    lemma_filter_is_subrange(row, exclusive(), cut, row.len() as int);
}

/// Splits the atoms of a conjunction into those that ask for a component to
/// be there and those that ask for it not to be there.
///
/// The atoms are sorted, so the second part starts at the first atom whose
/// packed number is at least that of the smallest `Without` atom.
pub fn filters<'a>(atoms: &'a [Filter]) -> (parts: (InclusiveFilter<'a>, ExclusiveFilter<'a>))
    requires
        valid_conjunction(atoms@),
    ensures
        parts.0@.len() <= atoms@.len(),
        parts.0@ == atoms@.subrange(0, parts.0@.len() as int),
        parts.1@ == atoms@.subrange(parts.0@.len() as int, atoms@.len() as int),
        all_inclusive(parts.0@),
        all_exclusive(parts.1@),
{
    let first_exclusive: usize = first_at_least(atoms, WITHOUT_FLOOR);
    let inclusive_part: &'a [Filter] = vstd::slice::slice_subrange(atoms, 0, first_exclusive);
    let exclusive_part: &'a [Filter] = vstd::slice::slice_subrange(
        atoms,
        first_exclusive,
        atoms.len(),
    );
    proof {
        lemma_split_conjunction(atoms@, first_exclusive as int);
    }
    (InclusiveFilter(inclusive_part), ExclusiveFilter(exclusive_part))
}

/// `part` is the run of the atoms of kind `kind` within `row`.
pub open spec fn is_kind_range(row: Seq<Filter>, part: Seq<Filter>, kind: FilterKind) -> bool {
    exists|from: int, to: int|
        0 <= from <= to <= row.len() && part == #[trigger] row.subrange(from, to) && forall|
            i: int,
        |
            0 <= i < row.len() ==> ((#[trigger] row[i]).spec_kind() == kind <==> from <= i < to)
}

/// The run of the atoms of one kind is what a pass over `row` would select.
pub proof fn lemma_kind_range_is_selection(row: Seq<Filter>, part: Seq<Filter>, kind: FilterKind)
    requires
        is_kind_range(row, part, kind),
    ensures
        part == row.filter(of_kind(kind)),
{
    let (from, to) = choose|from: int, to: int|
        0 <= from <= to <= row.len() && part == #[trigger] row.subrange(from, to) && forall|i: int|
            0 <= i < row.len() ==> ((#[trigger] row[i]).spec_kind() == kind <==> from <= i < to);
    assert forall|i: int| 0 <= i < row.len() implies (of_kind(kind)(#[trigger] row[i]) <==> from
        <= i < to) by {}
    lemma_filter_is_subrange(row, of_kind(kind), from, to);
}

/// Takes from the atoms of a conjunction those that ask for a changed
/// component and those that ask for an added one.
///
/// The atoms are sorted, so each kind is the range between the first atom
/// whose packed number reaches the kind's smallest number and the first atom
/// that reaches the next kind's.
pub fn tick_filters<'a>(atoms: &'a [Filter]) -> (parts: (ChangedFilter<'a>, AddedFilter<'a>))
    requires
        valid_conjunction(atoms@),
    ensures
        is_kind_range(atoms@, parts.0@, FilterKind::Changed),
        is_kind_range(atoms@, parts.1@, FilterKind::Added),
{
    let first_changed: usize = first_at_least(atoms, CHANGED_FLOOR);
    let first_added: usize = first_at_least(atoms, ADDED_FLOOR);
    let first_without: usize = first_at_least(atoms, WITHOUT_FLOOR);
    proof {
        let all = atoms@;
        if first_changed > first_added {
            assert(all[first_added as int].raw() >= ADDED_FLOOR);
        }
        if first_added > first_without {
            assert(all[first_without as int].raw() >= WITHOUT_FLOOR);
        }
        assert forall|i: int| 0 <= i < all.len() implies ((#[trigger] all[i]).spec_kind()
            == FilterKind::Changed <==> first_changed <= i < first_added) by {
            lemma_inclusive_by_raw(all[i]);
        }
        assert forall|i: int| 0 <= i < all.len() implies ((#[trigger] all[i]).spec_kind()
            == FilterKind::Added <==> first_added <= i < first_without) by {
            lemma_inclusive_by_raw(all[i]);
        }
    }
    let changed: &'a [Filter] = vstd::slice::slice_subrange(atoms, first_changed, first_added);
    let added: &'a [Filter] = vstd::slice::slice_subrange(atoms, first_added, first_without);
    proof {
        assert(changed@ == atoms@.subrange(first_changed as int, first_added as int));
        assert(added@ == atoms@.subrange(first_added as int, first_without as int));
    }
    (ChangedFilter(changed), AddedFilter(added))
}

impl<'a> View for InclusiveFilter<'a> {
    type V = Seq<Filter>;

    /// The atoms.
    closed spec fn view(&self) -> Seq<Filter> {
        self.0@
    }
}

impl<'a> View for ExclusiveFilter<'a> {
    type V = Seq<Filter>;

    /// The atoms.
    closed spec fn view(&self) -> Seq<Filter> {
        self.0@
    }
}

impl<'a> View for ChangedFilter<'a> {
    type V = Seq<Filter>;

    /// The atoms.
    closed spec fn view(&self) -> Seq<Filter> {
        self.0@
    }
}

impl<'a> View for AddedFilter<'a> {
    type V = Seq<Filter>;

    /// The atoms.
    closed spec fn view(&self) -> Seq<Filter> {
        self.0@
    }
}

/// The place of the first of `atoms` about the component with index `id`.
fn position_of(atoms: &[Filter], id: usize) -> (found: Option<usize>)
    ensures
        found matches Some(at) ==> at < atoms@.len() && atoms@[at as int].spec_index() == id
            && forall|k: int| 0 <= k < at ==> atoms@[k].spec_index() != id,
        found is None ==> forall|k: int| 0 <= k < atoms@.len() ==> atoms@[k].spec_index() != id,
{
    let mut at: usize = 0;
    while at < atoms.len()
        invariant
            at <= atoms@.len(),
            forall|k: int| 0 <= k < at ==> atoms@[k].spec_index() != id,
        decreases atoms.len() - at,
    {
        if atoms[at].id().index() == id {
            return Some(at);
        }
        at += 1;
    }
    None
}

/// Every atom of `atoms` is about a component among `ids`.
pub open spec fn all_among(atoms: Seq<Filter>, ids: Seq<usize>) -> bool {
    forall|i: int| 0 <= i < atoms.len() ==> has_component(ids, (#[trigger] atoms[i]).spec_index())
}

/// Some atom of `atoms` is about a component among `ids`.
pub open spec fn any_among(atoms: Seq<Filter>, ids: Seq<usize>) -> bool {
    exists|i: int| 0 <= i < atoms.len() && has_component(ids, (#[trigger] atoms[i]).spec_index())
}

impl<'a> InclusiveFilter<'a> {
    /// No two atoms are about the same component.
    #[verifier::type_invariant]
    pub closed spec fn wf(&self) -> bool {
        distinct_indices(self.0@)
    }

    /// The atoms.
    pub fn atoms(&self) -> (atoms: &'a [Filter])
        ensures
            atoms@ == self@,
    {
        self.0
    }

    /// Whether an archetype with the components `ids` has the component of
    /// every atom.
    pub fn all_included(self, ids: &[usize]) -> (all: bool)
        ensures
            all == all_among(self@, ids@),
    {
        proof {
            use_type_invariant(&self);
        }
        let atoms: &[Filter] = self.0;
        let count: usize = atoms.len();
        let mut found = fixed_with_capacity(count);
        let mut k: usize = 0;
        while k < ids.len()
            invariant
                k <= ids@.len(),
                count == atoms@.len(),
                fixed_len(found) == count,
                distinct_indices(atoms@),
                forall|at: nat|
                    fixed_on(found).contains(at) <==> at < atoms@.len() && has_component(
                        ids@.take(k as int),
                        atoms@[at as int].spec_index(),
                    ),
            decreases ids.len() - k,
        {
            let id: usize = ids[k];
            let ghost before = fixed_on(found);
            let ghost seen = ids@.take(k as int);
            let ghost next = ids@.take(k + 1);
            proof {
                assert forall|index: nat|
                    has_component(next, index) <==> has_component(seen, index) || index == id by {
                    if has_component(next, index) {
                        let at = choose|at: int|
                            0 <= at < next.len() && #[trigger] next[at] == index;
                        if at < k {
                            assert(seen[at] == index);
                        }
                    }
                    if has_component(seen, index) {
                        let at = choose|at: int|
                            0 <= at < seen.len() && #[trigger] seen[at] == index;
                        assert(next[at] == index);
                    }
                    if index == id {
                        assert(next[k as int] == index);
                    }
                }
            }
            match position_of(atoms, id) {
                Some(idx) => {
                    fixed_enable(&mut found, idx);
                    proof {
                        reveal(distinct_indices);
                        assert forall|at: nat|
                            fixed_on(found).contains(at) <==> at < atoms@.len() && has_component(
                                next,
                                atoms@[at as int].spec_index(),
                            ) by {
                            if at < atoms@.len() && atoms@[at as int].spec_index() == id {
                                let here = atoms@[at as int].spec_index();
                                let first = atoms@[idx as int].spec_index();
                                if at < idx {
                                    assert(here != first);
                                } else if idx < at {
                                    assert(first != here);
                                }
                            }
                        }
                    }
                },
                None => {},
            }
            k += 1;
        }
        let ones: usize = fixed_count_ones(&found);
        proof {
            let on = fixed_on(found);
            assert(ids@.take(k as int) =~= ids@);
            assert(on.subset_of(crate::bits::below(count as nat)));
            crate::bits::lemma_all_below(on, count as nat);
            if ones == count {
                assert forall|i: int| 0 <= i < atoms@.len() implies has_component(
                    ids@,
                    (#[trigger] atoms@[i]).spec_index(),
                ) by {
                    assert(crate::bits::below(count as nat).contains(i as nat));
                    assert(on.contains(i as nat));
                }
            } else {
                if all_among(atoms@, ids@) {
                    assert forall|at: nat| crate::bits::below(count as nat).contains(
                        at,
                    ) implies on.contains(at) by {
                        assert(has_component(ids@, atoms@[at as int].spec_index()));
                    }
                    assert(on =~= crate::bits::below(count as nat));
                }
            }
        }
        ones == count
    }
}

impl<'a> ExclusiveFilter<'a> {
    /// The atoms are sorted, and all exclusive.
    #[verifier::type_invariant]
    pub closed spec fn wf(&self) -> bool {
        sorted_atoms(self.0@) && all_exclusive(self.0@)
    }

    /// The atoms.
    pub fn atoms(&self) -> (atoms: &'a [Filter])
        ensures
            atoms@ == self@,
    {
        self.0
    }

    /// Whether an archetype with the components `ids` has the component of
    /// some atom. Each of `ids` is looked up among the atoms by bisection.
    pub fn any_excluded(&self, ids: &[usize]) -> (any: bool)
        ensures
            any == any_among(self@, ids@),
    {
        proof {
            use_type_invariant(self);
        }
        let atoms: &[Filter] = self.0;
        let mut found: bool = false;
        let mut k: usize = 0;
        while k < ids.len()
            invariant
                k <= ids@.len(),
                sorted_atoms(atoms@),
                all_exclusive(atoms@),
                found == any_among(atoms@, ids@.take(k as int)),
            decreases ids.len() - k,
        {
            let id: usize = ids[k];
            let here: bool = has_index(atoms, id);
            proof {
                let seen = ids@.take(k as int);
                let next = ids@.take(k + 1);
                assert forall|index: nat|
                    has_component(next, index) <==> has_component(seen, index) || index == id by {
                    if has_component(next, index) {
                        let at = choose|at: int|
                            0 <= at < next.len() && #[trigger] next[at] == index;
                        if at < k {
                            assert(seen[at] == index);
                        }
                    }
                    if has_component(seen, index) {
                        let at = choose|at: int|
                            0 <= at < seen.len() && #[trigger] seen[at] == index;
                        assert(next[at] == index);
                    }
                    if index == id {
                        assert(next[k as int] == index);
                    }
                }
                if here {
                    let i = choose|i: int| 0 <= i < atoms@.len() && atoms@[i].spec_index() == id;
                    assert(has_component(next, atoms@[i].spec_index()));
                }
                if found {
                    let i = choose|i: int|
                        0 <= i < atoms@.len() && has_component(
                            seen,
                            (#[trigger] atoms@[i]).spec_index(),
                        );
                    assert(has_component(next, atoms@[i].spec_index()));
                }
                if any_among(atoms@, next) {
                    let i = choose|i: int|
                        0 <= i < atoms@.len() && has_component(
                            next,
                            (#[trigger] atoms@[i]).spec_index(),
                        );
                    if atoms@[i].spec_index() != id {
                        assert(has_component(seen, atoms@[i].spec_index()));
                    }
                }
            }
            found = found || here;
            k += 1;
        }
        proof {
            assert(ids@.take(k as int) =~= ids@);
        }
        found
    }
}

/// Whether one of the sorted exclusive `atoms` is about the component with
/// index `id`. Found by bisection: atoms of one kind are sorted by component.
fn has_index(atoms: &[Filter], id: usize) -> (has: bool)
    requires
        sorted_atoms(atoms@),
        all_exclusive(atoms@),
    ensures
        has == exists|i: int| 0 <= i < atoms@.len() && atoms@[i].spec_index() == id,
{
    let mut low: usize = 0;
    let mut high: usize = atoms.len();
    while low < high
        invariant
            low <= high <= atoms@.len(),
            sorted_atoms(atoms@),
            all_exclusive(atoms@),
            forall|i: int|
                0 <= i < atoms@.len() && atoms@[i].spec_index() == id ==> low <= i < high,
        decreases high - low,
    {
        let middle: usize = low + (high - low) / 2;
        let here: usize = atoms[middle].id().index();
        if here == id {
            return true;
        }
        proof {
            reveal(sorted_atoms);
            reveal(all_exclusive);
            let pivot = atoms@[middle as int];
            assert(!pivot.is_inclusive());
            lemma_filter_packing(pivot);
            assert forall|i: int|
                0 <= i < atoms@.len() && atoms@[i].spec_index() == id implies (if here < id {
                middle < i
            } else {
                i < middle
            }) by {
                assert(!atoms@[i].is_inclusive());
                lemma_filter_packing(atoms@[i]);
                if i <= middle {
                    assert(atoms@[i].raw() <= pivot.raw());
                } else {
                    assert(pivot.raw() <= atoms@[i].raw());
                }
            }
        }
        if here < id {
            low = middle + 1;
        } else {
            high = middle;
        }
    }
    false
}

/// The component with index `index` of `entity` changed within the window.
pub open spec fn changed_since(entity: EntityCell, index: nat, ticks: Ticks) -> bool {
    entity.ticks_of(index) matches Some(found) && spec_is_newer_than(
        found.changed,
        ticks.last_run,
        ticks.this_run,
    )
}

/// The component with index `index` of `entity` was added within the window.
pub open spec fn added_since(entity: EntityCell, index: nat, ticks: Ticks) -> bool {
    entity.ticks_of(index) matches Some(found) && spec_is_newer_than(
        found.added,
        ticks.last_run,
        ticks.this_run,
    )
}

/// What an atom asks of the change ticks of `entity`: a `Changed` atom that its
/// component changed within the window, an `Added` atom that it was added
/// within it, the other atoms nothing.
pub open spec fn atom_within_tick(atom: Filter, entity: EntityCell, ticks: Ticks) -> bool {
    match atom.spec_kind() {
        FilterKind::Changed => changed_since(entity, atom.spec_index(), ticks),
        FilterKind::Added => added_since(entity, atom.spec_index(), ticks),
        _ => true,
    }
}

/// An archetype with the components `ids` passes the conjunction `row`: it
/// has the component of each inclusive atom and of no exclusive atom.
pub open spec fn row_in_filter(row: Seq<Filter>, ids: Seq<usize>) -> bool {
    forall|i: int|
        0 <= i < row.len() ==> ((#[trigger] row[i]).is_inclusive() <==> has_component(
            ids,
            row[i].spec_index(),
        ))
}

/// The conjunction `row` has an atom about change ticks.
pub open spec fn row_has_tick(row: Seq<Filter>) -> bool {
    exists|i: int|
        0 <= i < row.len() && ((#[trigger] row[i]).spec_kind() == FilterKind::Changed
            || row[i].spec_kind() == FilterKind::Added)
}

/// The entity passes the conjunction `row` with its change ticks: its
/// components pass, and every atom about change ticks is met.
pub open spec fn row_within_tick(row: Seq<Filter>, entity: EntityCell, ticks: Ticks) -> bool {
    &&& row_in_filter(row, entity.component_ids())
    &&& forall|i: int| 0 <= i < row.len() ==> atom_within_tick(#[trigger] row[i], entity, ticks)
}

impl<'a> ChangedFilter<'a> {
    /// The atoms.
    pub fn atoms(&self) -> (atoms: &'a [Filter])
        ensures
            atoms@ == self@,
    {
        self.0
    }

    /// Whether the component of every atom changed within the window.
    pub fn within_tick(&self, entity: &EntityCell, ticks: Ticks) -> (within: bool)
        ensures
            within == forall|i: int|
                0 <= i < self@.len() ==> changed_since(
                    *entity,
                    (#[trigger] self@[i]).spec_index(),
                    ticks,
                ),
    {
        let atoms: &[Filter] = self.0;
        let mut at: usize = 0;
        while at < atoms.len()
            invariant
                at <= atoms@.len(),
                atoms@ == self@,
                forall|i: int|
                    0 <= i < at ==> changed_since(
                        *entity,
                        (#[trigger] atoms@[i]).spec_index(),
                        ticks,
                    ),
            decreases atoms.len() - at,
        {
            let newer: bool = match entity.get_change_ticks(atoms[at].id().index()) {
                Some(found) => is_newer_than(found.changed, ticks.last_run, ticks.this_run),
                None => false,
            };
            if !newer {
                assert(!changed_since(*entity, self@[at as int].spec_index(), ticks));
                return false;
            }
            at += 1;
        }
        true
    }
}

impl<'a> AddedFilter<'a> {
    /// The atoms.
    pub fn atoms(&self) -> (atoms: &'a [Filter])
        ensures
            atoms@ == self@,
    {
        self.0
    }

    /// Whether the component of every atom was added within the window.
    pub fn within_tick(&self, entity: &EntityCell, ticks: Ticks) -> (within: bool)
        ensures
            within == forall|i: int|
                0 <= i < self@.len() ==> added_since(
                    *entity,
                    (#[trigger] self@[i]).spec_index(),
                    ticks,
                ),
    {
        let atoms: &[Filter] = self.0;
        let mut at: usize = 0;
        while at < atoms.len()
            invariant
                at <= atoms@.len(),
                atoms@ == self@,
                forall|i: int|
                    0 <= i < at ==> added_since(
                        *entity,
                        (#[trigger] atoms@[i]).spec_index(),
                        ticks,
                    ),
            decreases atoms.len() - at,
        {
            let newer: bool = match entity.get_change_ticks(atoms[at].id().index()) {
                Some(found) => is_newer_than(found.added, ticks.last_run, ticks.this_run),
                None => false,
            };
            if !newer {
                assert(!added_since(*entity, self@[at as int].spec_index(), ticks));
                return false;
            }
            at += 1;
        }
        true
    }
}

/// One conjunction of [`Filters`]: conditions that must all hold.
#[derive(Clone, Copy, Debug)]
pub struct Conjunction<'a> {
    filters: &'a [Filter],
}

impl<'a> View for Conjunction<'a> {
    type V = Seq<Filter>;

    /// The atoms, in ascending order.
    closed spec fn view(&self) -> Seq<Filter> {
        self.filters@
    }
}

impl<'a> Conjunction<'a> {
    /// The atoms are sorted, and no component is asked for by two inclusive
    /// atoms.
    #[verifier::type_invariant]
    pub closed spec fn wf(&self) -> bool {
        valid_conjunction(self.filters@)
    }

    /// The atoms, in ascending order.
    pub fn atoms(&self) -> (atoms: &'a [Filter])
        ensures
            atoms@ == self@,
            valid_conjunction(atoms@),
    {
        proof {
            use_type_invariant(self);
        }
        self.filters
    }

    /// Whether an archetype with the components `ids` passes the conjunction:
    /// it has the component of each inclusive atom and of no exclusive atom.
    pub fn in_filter(&self, ids: &[usize]) -> (passes: bool)
        ensures
            passes == row_in_filter(self@, ids@),
    {
        proof {
            use_type_invariant(self);
        }
        let (inclusive, exclusive) = filters(self.filters);
        let ghost first = inclusive@;
        let ghost second = exclusive@;
        let include_filter: bool = inclusive.all_included(ids);
        let exclude_filter: bool = exclusive.any_excluded(ids);
        proof {
            lemma_in_filter_by_parts(self.filters@, first, second, ids@);
        }
        include_filter && !exclude_filter
    }

    /// Whether an archetype with the components `ids` can hold entities of
    /// the query: it has what `fetches` requires, and passes the conjunction.
    pub fn includes(&self, fetches: &Fetches, ids: &[usize]) -> (included: bool)
        ensures
            included == (fetches.spec_all_included(ids@) && row_in_filter(self@, ids@)),
    {
        let in_filter: bool = self.in_filter(ids);
        let fetch_archetype: bool = fetches.all_included(ids);
        fetch_archetype && in_filter
    }

    /// Whether the conjunction has an atom about change ticks.
    pub fn has_tick_filter(&self) -> (has: bool)
        ensures
            has == row_has_tick(self@),
    {
        proof {
            use_type_invariant(self);
        }
        let first_changed: usize = first_at_least(self.filters, CHANGED_FLOOR);
        let first_without: usize = first_at_least(self.filters, WITHOUT_FLOOR);
        proof {
            let row = self.filters@;
            if first_changed < first_without {
                let atom = row[first_changed as int];
                lemma_inclusive_by_raw(atom);
                assert(atom.spec_kind() == FilterKind::Changed || atom.spec_kind()
                    == FilterKind::Added);
            }
            if row_has_tick(row) {
                let i = choose|i: int|
                    0 <= i < row.len() && ((#[trigger] row[i]).spec_kind() == FilterKind::Changed
                        || row[i].spec_kind() == FilterKind::Added);
                lemma_inclusive_by_raw(row[i]);
                assert(first_changed <= i < first_without);
            }
        }
        first_changed < first_without
    }

    /// Whether the entity passes the conjunction, change ticks included.
    pub fn within_tick(&self, ticks: Ticks, entity: &EntityCell) -> (within: bool)
        ensures
            within == row_within_tick(self@, *entity, ticks),
    {
        proof {
            use_type_invariant(self);
        }
        let ids: Vec<usize> = entity.component_indices();
        if !self.in_filter(ids.as_slice()) {
            return false;
        }
        let (changed, added) = tick_filters(self.filters);
        let ghost changed_atoms = changed@;
        let ghost added_atoms = added@;
        let changed_within: bool = changed.within_tick(entity, ticks);
        let added_within: bool = added.within_tick(entity, ticks);
        proof {
            lemma_within_tick_by_parts(self.filters@, changed_atoms, added_atoms, *entity, ticks);
        }
        changed_within && added_within
    }
}

/// A conjunction cut into its inclusive and its exclusive atoms lets an
/// archetype pass exactly when the archetype has the component of every
/// inclusive atom and of no exclusive atom.
pub proof fn lemma_in_filter_by_parts(
    row: Seq<Filter>,
    first: Seq<Filter>,
    second: Seq<Filter>,
    ids: Seq<usize>,
)
    requires
        first.len() <= row.len(),
        first == row.subrange(0, first.len() as int),
        second == row.subrange(first.len() as int, row.len() as int),
        all_inclusive(first),
        all_exclusive(second),
    ensures
        row_in_filter(row, ids) == (all_among(first, ids) && !any_among(second, ids)),
{
    reveal(all_exclusive);
    reveal(all_inclusive);
    let cut = first.len() as int;
    if all_among(first, ids) && !any_among(second, ids) {
        assert forall|i: int| 0 <= i < row.len() implies ((#[trigger] row[i]).is_inclusive()
            <==> has_component(ids, row[i].spec_index())) by {
            if i < cut {
                assert(row[i] == first[i]);
            } else {
                assert(row[i] == second[i - cut]);
            }
        }
    }
    if row_in_filter(row, ids) {
        assert forall|i: int| 0 <= i < first.len() implies has_component(
            ids,
            (#[trigger] first[i]).spec_index(),
        ) by {
            assert(row[i] == first[i]);
        }
        if any_among(second, ids) {
            let i = choose|i: int|
                0 <= i < second.len() && has_component(ids, (#[trigger] second[i]).spec_index());
            assert(row[cut + i] == second[i]);
        }
    }
}

/// The atoms about change ticks of a conjunction are met by an entity exactly
/// when the `Changed` atoms are and the `Added` atoms are.
pub proof fn lemma_within_tick_by_parts(
    row: Seq<Filter>,
    changed: Seq<Filter>,
    added: Seq<Filter>,
    entity: EntityCell,
    ticks: Ticks,
)
    requires
        is_kind_range(row, changed, FilterKind::Changed),
        is_kind_range(row, added, FilterKind::Added),
    ensures
        (forall|i: int| 0 <= i < row.len() ==> atom_within_tick(#[trigger] row[i], entity, ticks))
            == ((forall|i: int|
            0 <= i < changed.len() ==> changed_since(
                entity,
                (#[trigger] changed[i]).spec_index(),
                ticks,
            )) && (forall|i: int|
            0 <= i < added.len() ==> added_since(entity, (#[trigger] added[i]).spec_index(), ticks))),
{
    let (c_from, c_to) = choose|from: int, to: int|
        0 <= from <= to <= row.len() && changed == #[trigger] row.subrange(from, to) && forall|
            i: int,
        |
            0 <= i < row.len() ==> ((#[trigger] row[i]).spec_kind() == FilterKind::Changed <==> from
                <= i < to);
    let (a_from, a_to) = choose|from: int, to: int|
        0 <= from <= to <= row.len() && added == #[trigger] row.subrange(from, to) && forall|i: int|
            0 <= i < row.len() ==> ((#[trigger] row[i]).spec_kind() == FilterKind::Added <==> from
                <= i < to);
    let whole = forall|i: int|
        0 <= i < row.len() ==> atom_within_tick(#[trigger] row[i], entity, ticks);
    let changed_met = forall|i: int|
        0 <= i < changed.len() ==> changed_since(entity, (#[trigger] changed[i]).spec_index(), ticks);
    let added_met = forall|i: int|
        0 <= i < added.len() ==> added_since(entity, (#[trigger] added[i]).spec_index(), ticks);
    if changed_met && added_met {
        assert forall|i: int| 0 <= i < row.len() implies atom_within_tick(
            #[trigger] row[i],
            entity,
            ticks,
        ) by {
            if row[i].spec_kind() == FilterKind::Changed {
                assert(changed[i - c_from] == row[i]);
            } else if row[i].spec_kind() == FilterKind::Added {
                assert(added[i - a_from] == row[i]);
            }
        }
    }
    if whole {
        assert forall|k: int| 0 <= k < changed.len() implies changed_since(
            entity,
            (#[trigger] changed[k]).spec_index(),
            ticks,
        ) by {
            assert(row[c_from + k] == changed[k]);
            assert(atom_within_tick(row[c_from + k], entity, ticks));
        }
        assert forall|k: int| 0 <= k < added.len() implies added_since(
            entity,
            (#[trigger] added[k]).spec_index(),
            ticks,
        ) by {
            assert(row[a_from + k] == added[k]);
            assert(atom_within_tick(row[a_from + k], entity, ticks));
        }
    }
}

/// `a` comes before `b` in the order of conditions: its kind comes first, or
/// the kinds are the same and its component has the smaller index.
pub open spec fn atom_before(a: Filter, b: Filter) -> bool {
    a.spec_kind().code() < b.spec_kind().code() || (a.spec_kind() == b.spec_kind()
        && a.spec_index() < b.spec_index())
}

/// The order of the packed numbers is the order by kind first and component
/// second.
pub proof fn lemma_raw_order(a: Filter, b: Filter)
    ensures
        a.raw() < b.raw() <==> atom_before(a, b),
        a.raw() == b.raw() <==> a.spec_kind() == b.spec_kind() && a.spec_index() == b.spec_index(),
{
    lemma_filter_packing(a);
    lemma_filter_packing(b);
}

/// The atoms of a conjunction are in order: no atom comes before an earlier
/// one. Inclusive atoms are strictly in order.
pub proof fn lemma_conjunction_ordered(row: Seq<Filter>, i: int, j: int)
    requires
        valid_conjunction(row),
        0 <= i < j < row.len(),
    ensures
        !atom_before(row[j], row[i]),
        row[i].is_inclusive() && row[j].is_inclusive() ==> atom_before(row[i], row[j]),
{
    reveal(sorted_atoms);
    reveal(distinct_inclusive);
    lemma_raw_order(row[i], row[j]);
    lemma_raw_order(row[j], row[i]);
    if row[i].is_inclusive() && row[j].is_inclusive() {
        assert(inclusive_key()(row[i]) is Some);
        assert(inclusive_key()(row[i]) != inclusive_key()(row[j]));
        if row[i].spec_kind() == row[j].spec_kind() {
            assert(row[i].spec_index() != row[j].spec_index());
        }
    }
}

/// The atoms of a conjunction that excludes no component twice are strictly
/// in order, by kind first and component second.
pub proof fn lemma_conjunction_strictly_ordered(row: Seq<Filter>, i: int, j: int)
    requires
        valid_conjunction(row),
        0 <= i < j < row.len(),
        forall|a: int, b: int|
            0 <= a < b < row.len() && !row[a].is_inclusive() && !row[b].is_inclusive()
                ==> row[a].spec_index() != row[b].spec_index(),
    ensures
        atom_before(row[i], row[j]),
{
    lemma_conjunction_ordered(row, i, j);
    lemma_raw_order(row[i], row[j]);
    lemma_raw_order(row[j], row[i]);
    reveal(sorted_atoms);
    if !row[i].is_inclusive() && !row[j].is_inclusive() {
        assert(row[i].spec_index() != row[j].spec_index());
    }
}

/// What a condition of a query description asks of an archetype with the
/// components `ids`: `Without` that the component is not among them, the
/// other conditions that it is.
pub open spec fn condition_holds(atom: AndFilter, ids: Seq<usize>) -> bool {
    atom.is_inclusive() <==> has_component(ids, atom.spec_id()@)
}

/// A compiled conjunction lets the same archetypes pass as the conditions that
/// it was compiled from, taken together.
pub proof fn lemma_compiled_conjunction(group: Seq<AndFilter>, row: Seq<Filter>, ids: Seq<usize>)
    requires
        compiles_to(group, row),
        forall|i: int| 0 <= i < group.len() ==> (#[trigger] group[i]).spec_id().wf(),
    ensures
        row_in_filter(row, ids) <==> forall|i: int|
            0 <= i < group.len() ==> condition_holds(#[trigger] group[i], ids),
{
    let atoms = packed(group);
    assert forall|i: int| 0 <= i < group.len() implies (#[trigger] atoms[i]).is_inclusive()
        == group[i].is_inclusive() && atoms[i].spec_index() == group[i].spec_id()@ by {
        lemma_filter_new(kind_of(group[i]), group[i].spec_id()@);
    }
    if row_in_filter(row, ids) {
        assert forall|i: int| 0 <= i < group.len() implies condition_holds(
            #[trigger] group[i],
            ids,
        ) by {
            assert(atoms.contains(atoms[i]));
            crate::permutation::lemma_reordered_contains(atoms, row, atoms[i]);
            let k = choose|k: int| 0 <= k < row.len() && row[k] == atoms[i];
            assert(row[k].is_inclusive() <==> has_component(ids, row[k].spec_index()));
        }
    }
    if forall|i: int| 0 <= i < group.len() ==> condition_holds(#[trigger] group[i], ids) {
        assert forall|k: int| 0 <= k < row.len() implies ((#[trigger] row[k]).is_inclusive()
            <==> has_component(ids, row[k].spec_index())) by {
            assert(row.contains(row[k]));
            crate::permutation::lemma_reordered_contains(atoms, row, row[k]);
            let i = choose|i: int| 0 <= i < atoms.len() && atoms[i] == row[k];
            assert(condition_holds(group[i], ids));
        }
    }
}

/// A component that changed at `this_run` changed within every window that
/// started before `this_run`: a conjunction of one `Changed` atom about it
/// holds for an entity that has the component.
pub proof fn lemma_changed_at_this_run(atom: Filter, entity: EntityCell, ticks: Ticks)
    requires
        atom.spec_kind() == FilterKind::Changed,
        entity.ticks_of(atom.spec_index()) matches Some(found) && found.changed == ticks.this_run,
        ticks.last_run.0 < ticks.this_run.0,
    ensures
        atom_within_tick(atom, entity, ticks),
        has_component(entity.component_ids(), atom.spec_index()) ==> row_within_tick(
            seq![atom],
            entity,
            ticks,
        ),
{
}

/// A component that last changed before `last_run` did not change within
/// the window: no conjunction with a `Changed` atom about it holds.
pub proof fn lemma_changed_before_last_run(
    row: Seq<Filter>,
    at: int,
    entity: EntityCell,
    ticks: Ticks,
)
    requires
        0 <= at < row.len(),
        row[at].spec_kind() == FilterKind::Changed,
        entity.ticks_of(row[at].spec_index()) matches Some(found) && found.changed.0
            < ticks.last_run.0,
        ticks.last_run.0 <= ticks.this_run.0,
    ensures
        !atom_within_tick(row[at], entity, ticks),
        !row_within_tick(row, entity, ticks),
{
}

} // verus!
