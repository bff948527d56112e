//! The compiled list of what a query fetches from each entity.
//!
//! The fetched components are kept in four rows, one per kind of access:
//! reads, writes, optional reads, optional writes. Each cell holds a component
//! and the accessor of its type. The rows are those of a
//! `datazoo::JaggedArray`, so that a row, or the two rows of required
//! components together, is one slice.
use crate::bits::{bits_enable, bits_new, bits_on, bits_test, Bits};
use crate::builder::{BuildError, Fetch, FetchData};
use bevy_reflect::ReflectFromPtr;
use crate::permutation::{keyed_distinct, lemma_keyed_distinct_reordered};
use crate::dynamic_query::DynamicItem;
use crate::store::{has_component, ComponentId, EntityCell};
use std::collections::HashSet;
use vstd::prelude::*;

verus! {

/// `bevy_reflect::ReflectFromPtr`: how to get from a pointer to a component
/// to the component's value. The engine only carries it along.
#[verifier::external_type_specification]
#[verifier::external_body]
pub struct ExReflectFromPtr(ReflectFromPtr);

/// The `Clone` that `bevy_reflect::ReflectFromPtr` derives: the copy holds the
/// same type id and the same two functions.
pub assume_specification[ <ReflectFromPtr as Clone>::clone ](from_ptr: &ReflectFromPtr) -> (copy:
    ReflectFromPtr)
    ensures
        copy == *from_ptr,
;

/// One fetched component, and how to get at its value.
#[derive(Clone)]
pub struct FetchComponent {
    /// The component.
    pub id: ComponentId,
    /// The accessor of the component's type.
    pub from_ptr: ReflectFromPtr,
}

/// The four rows of fetched components: a `datazoo::JaggedArray` whose three
/// row ends are held in an array.
#[verifier::external_body]
pub struct FetchRows {
    inner: datazoo::JaggedArray<FetchComponent, usize, [usize; 3]>,
}

/// The cells of `rows`, row after row.
pub uninterp spec fn fetch_cells(rows: FetchRows) -> Seq<FetchComponent>;

/// Where the first three rows of `rows` stop, as offsets into the cells.
pub uninterp spec fn fetch_ends(rows: FetchRows) -> Seq<usize>;

/// Three row ends are legal over `len` cells: in order, and within the cells.
pub open spec fn valid_buckets(ends: Seq<usize>, len: nat) -> bool {
    ends.len() == 3 && ends[0] <= ends[1] <= ends[2] <= len
}

/// The offset of the first cell of row `row` of the four rows; row 4 stands
/// for the end of the cells.
pub open spec fn bucket_start(ends: Seq<usize>, len: nat, row: int) -> int {
    if row <= 0 {
        0
    } else if row > 3 {
        len as int
    } else {
        ends[row - 1] as int
    }
}

/// Assembles the four rows from the ends of the first three and the cells.
///
/// Calls `datazoo::JaggedArray::new`, which refuses ends that are out of
/// order or past the cells, and else keeps both parts as they are.
#[verifier::external_body]
fn fetch_rows_new(
    first_end: usize,
    second_end: usize,
    third_end: usize,
    data: Vec<FetchComponent>,
) -> (made: Option<FetchRows>)
    ensures
        made is Some <==> first_end <= second_end <= third_end <= data@.len(),
        made matches Some(rows) ==> fetch_cells(rows) == data@ && fetch_ends(rows) == seq![
            first_end,
            second_end,
            third_end,
        ],
{
    let ends: [usize; 3] = [first_end, second_end, third_end];
    match datazoo::JaggedArray::new(ends, data.into_boxed_slice()) {
        Ok(inner) => Some(FetchRows { inner }),
        Err(_) => None,
    }
}

/// How many cells the rows hold together.
///
/// Calls `datazoo::JaggedArray::len`.
#[verifier::external_body]
fn fetch_rows_len(rows: &FetchRows) -> (len: usize)
    ensures
        len == fetch_cells(*rows).len(),
{
    rows.inner.len()
}

/// The cells of the rows `first..=last`, as one slice.
///
/// Calls `datazoo::JaggedArray::rows` with an inclusive range. That function
/// panics when a row index is past the last row; the range goes from the
/// start of row `first` to the end of row `last`.
#[verifier::external_body]
fn fetch_rows_get(rows: &FetchRows, first: usize, last: usize) -> (cells: &[FetchComponent])
    requires
        first <= last <= 3,
        valid_buckets(fetch_ends(*rows), fetch_cells(*rows).len()),
    ensures
        cells@ == fetch_cells(*rows).subrange(
            bucket_start(fetch_ends(*rows), fetch_cells(*rows).len(), first as int),
            bucket_start(fetch_ends(*rows), fetch_cells(*rows).len(), last + 1),
        ),
{
    rows.inner.rows(first..=last)
}

/// A copy of the rows.
///
/// Calls the `Clone` that `datazoo::JaggedArray` derives.
#[verifier::external_body]
fn fetch_rows_clone(rows: &FetchRows) -> (copy: FetchRows)
    ensures
        fetch_cells(copy) == fetch_cells(*rows),
        fetch_ends(copy) == fetch_ends(*rows),
{
    FetchRows { inner: rows.inner.clone() }
}

/// The fetches are in their fixed order: by kind of access, and within a kind
/// by component.
pub open spec fn sorted_fetches(fetches: Seq<Fetch>) -> bool {
    forall|i: int, j: int| 0 <= i <= j < fetches.len() ==> !fetches[j].spec_lt(fetches[i])
}

/// The key by which required fetches must differ: the component index, for
/// `Read` and `Mut`.
pub open spec fn required_key() -> spec_fn(Fetch) -> Option<nat> {
    |fetch: Fetch|
        if fetch is Read || fetch is Mut {
            Some(fetch.spec_component())
        } else {
            None
        }
}

/// No component is fetched twice by `Read` or `Mut`.
pub open spec fn distinct_required(fetches: Seq<Fetch>) -> bool {
    keyed_distinct(fetches, required_key())
}

/// How many of the fetches are `Entity`.
pub open spec fn entity_count(fetches: Seq<Fetch>) -> nat {
    fetches.to_multiset().count(Fetch::Entity)
}

/// Sorts the fetches into their fixed order.
///
/// Calls `sort_unstable_by_key` of std's slices; the key is the position of
/// the variant, then the component index. Std documents that the slice is
/// sorted by the key afterwards; a sort in place reorders the items and
/// neither adds nor drops one.
#[verifier::external_body]
fn sort_fetches(fetches: &mut Vec<Fetch>)
    ensures
        sorted_fetches(final(fetches)@),
        final(fetches)@.to_multiset() == old(fetches)@.to_multiset(),
{
    fetches.sort_unstable_by_key(|fetch| (fetch.discriminant_index(), fetch.component()));
}

/// The fetch that a cell of the given row stands for.
pub open spec fn fetch_of(row: int, cell: FetchComponent) -> Fetch {
    let data = FetchData { id: cell.id, from_ptr: cell.from_ptr };
    if row <= 0 {
        Fetch::Read(data)
    } else if row == 1 {
        Fetch::Mut(data)
    } else if row == 2 {
        Fetch::OptionRead(data)
    } else {
        Fetch::OptionMut(data)
    }
}

/// What a query fetches from each entity, compiled.
pub struct Fetches {
    pub(crate) has_entity: bool,
    pub(crate) components: FetchRows,
}

impl Fetches {
    /// Whether the id of the entity is fetched.
    pub closed spec fn spec_has_entity(&self) -> bool {
        self.has_entity
    }

    /// The fetched components, row after row.
    pub closed spec fn cells(&self) -> Seq<FetchComponent> {
        fetch_cells(self.components)
    }

    /// Where the rows of reads, writes and optional reads stop.
    pub closed spec fn ends(&self) -> Seq<usize> {
        fetch_ends(self.components)
    }

    /// The offset of the first cell of row `row`; row 4 stands for the end.
    pub open spec fn start(&self, row: int) -> int {
        bucket_start(self.ends(), self.cells().len(), row)
    }

    /// The row that holds the cell at `at`.
    pub open spec fn row_of(&self, at: int) -> int {
        if at < self.start(1) {
            0
        } else if at < self.start(2) {
            1
        } else if at < self.start(3) {
            2
        } else {
            3
        }
    }

    /// The components of row `row`: 0 for reads, 1 for writes, 2 for optional
    /// reads, 3 for optional writes.
    pub open spec fn bucket(&self, row: int) -> Seq<FetchComponent> {
        self.cells().subrange(self.start(row), self.start(row + 1))
    }

    /// The components that an entity must have: the reads, then the writes.
    pub open spec fn required(&self) -> Seq<FetchComponent> {
        self.cells().subrange(0, self.start(2))
    }

    /// The fetches that the rows stand for, in their fixed order.
    pub open spec fn items(&self) -> Seq<Fetch> {
        let components = Seq::new(
            self.cells().len(),
            |at: int| fetch_of(self.row_of(at), self.cells()[at]),
        );
        if self.spec_has_entity() {
            components.push(Fetch::Entity)
        } else {
            components
        }
    }

    /// The row ends are legal, and no component is required twice.
    #[verifier::type_invariant]
    pub closed spec fn wf(&self) -> bool {
        &&& valid_buckets(fetch_ends(self.components), fetch_cells(self.components).len())
        &&& forall|i: int| 0 <= i < self.cells().len() ==> (#[trigger] self.cells()[i]).id.wf()
        &&& forall|i: int, j: int|
            0 <= i < j < self.start(2) ==> self.cells()[i].id != self.cells()[j].id
        &&& self.has_entity ==> fetch_cells(self.components).len() < usize::MAX
    }

    /// Every required component is among `ids`.
    pub open spec fn spec_all_included(&self, ids: Seq<usize>) -> bool {
        forall|i: int|
            0 <= i < self.required().len() ==> has_component(
                ids,
                (#[trigger] self.required()[i]).id@,
            )
    }

    /// How many items a fetched row has.
    pub open spec fn spec_len(&self) -> nat {
        self.items().len()
    }

    /// How many items a fetched row has: one per component, and one for the
    /// entity if it is fetched.
    pub fn len(&self) -> (n: usize)
        ensures
            n == self.spec_len(),
    {
        proof {
            use_type_invariant(self);
        }
        let components: usize = fetch_rows_len(&self.components);
        if self.has_entity {
            components + 1
        } else {
            components
        }
    }

    /// Whether the id of the entity is fetched.
    pub fn has_entity(&self) -> (has: bool)
        ensures
            has == self.spec_has_entity(),
    {
        self.has_entity
    }

    /// The components of the rows `first..=last`, as one slice.
    pub fn rows(&self, first: usize, last: usize) -> (cells: &[FetchComponent])
        requires
            first <= last <= 3,
        ensures
            cells@ == self.cells().subrange(self.start(first as int), self.start(last + 1)),
            0 <= self.start(first as int) <= self.start(last + 1) <= self.cells().len(),
            forall|i: int| 0 <= i < cells@.len() ==> (#[trigger] cells@[i]).id.wf(),
    {
        proof {
            use_type_invariant(self);
        }
        fetch_rows_get(&self.components, first, last)
    }
}

/// Whether two of `components` are the same component.
fn duplicates_in(components: &[FetchComponent]) -> (found: bool)
    ensures
        found == exists|i: int, j: int|
            0 <= i < j < components@.len() && components@[i].id == components@[j].id,
{
    broadcast use vstd::std_specs::hash::group_hash_axioms;

    let mut encountered: HashSet<usize> = HashSet::with_capacity(components.len());
    let mut at: usize = 0;
    while at < components.len()
        invariant
            at <= components@.len(),
            forall|i: int, j: int| 0 <= i < j < at ==> components@[i].id != components@[j].id,
            forall|index: usize|
                encountered@.contains(index) <==> exists|k: int|
                    0 <= k < at && (#[trigger] components@[k]).id@ == index,
        decreases components.len() - at,
    {
        let index: usize = components[at].id.index();
        let fresh: bool = encountered.insert(index);
        if !fresh {
            proof {
                let k = choose|k: int| 0 <= k < at && (#[trigger] components@[k]).id@ == index;
                crate::store::lemma_component_id_by_index(
                    components@[k].id,
                    components@[at as int].id,
                );
            }
            return true;
        }
        proof {
            assert forall|i: int, j: int| 0 <= i < j < at + 1 implies components@[i].id
                != components@[j].id by {
                if j == at && components@[i].id == components@[j].id {
                    assert(components@[i].id@ == index);
                }
            }
        }
        at += 1;
    }
    false
}

/// Where the fetches of the variants up to position `kind` stop, in a sorted
/// list of which the first `from` are known to be such.
fn end_of_kind(fetches: &Vec<Fetch>, from: usize, kind: usize) -> (end: usize)
    requires
        sorted_fetches(fetches@),
        from <= fetches@.len(),
        forall|p: int| 0 <= p < from ==> fetches@[p].spec_discriminant_index() <= kind,
    ensures
        from <= end <= fetches@.len(),
        forall|p: int| 0 <= p < end ==> fetches@[p].spec_discriminant_index() <= kind,
        forall|p: int| end <= p < fetches@.len() ==> fetches@[p].spec_discriminant_index() > kind,
{
    let mut end: usize = from;
    while end < fetches.len() && fetches[end].discriminant_index() <= kind
        invariant
            from <= end <= fetches@.len(),
            forall|p: int| 0 <= p < end ==> fetches@[p].spec_discriminant_index() <= kind,
        decreases fetches.len() - end,
    {
        end += 1;
    }
    proof {
        assert forall|p: int| end <= p < fetches@.len() implies fetches@[p].spec_discriminant_index()
            > kind by {
            assert(!fetches@[p].spec_lt(fetches@[end as int]));
        }
    }
    end
}

impl Fetches {
    /// Compiles a list of fetches: sorts them into their rows and takes the
    /// entity marker out.
    ///
    /// It fails when a component is fetched twice by `Read` or `Mut`. Optional
    /// fetches may repeat a component. The entity may be asked for once.
    pub fn new(fetches: Vec<Fetch>) -> (made: Result<Self, BuildError>)
        requires
            entity_count(fetches@) <= 1,
        ensures
            made is Err <==> !distinct_required(fetches@),
            made matches Err(error) ==> error == BuildError::DuplicateFetch,
            made matches Ok(compiled) ==> {
                &&& compiled.wf()
                &&& sorted_fetches(compiled.items())
                &&& compiled.items().to_multiset() == fetches@.to_multiset()
            },
    {
        let ghost described = fetches@;
        let mut fetches = fetches;
        sort_fetches(&mut fetches);
        let ghost sorted = fetches@;
        proof {
            sorted.to_multiset_ensures();
            described.to_multiset_ensures();
        }
        let total: usize = fetches.len();
        let has_entity: bool = total > 0 && fetches[total - 1].discriminant_index()
            == Fetch::ENTITY_IDX;
        if has_entity {
            fetches.pop();
            proof {
                assert(sorted =~= fetches@.push(Fetch::Entity));
                fetches@.to_multiset_ensures();
                assert(sorted.to_multiset() =~= fetches@.to_multiset().insert(Fetch::Entity));
                assert(!fetches@.contains(Fetch::Entity));
            }
        }
        let count: usize = fetches.len();
        proof {
            assert forall|p: int| 0 <= p < count implies !((#[trigger] fetches@[p]) is Entity) by {
                assert(fetches@[p] == sorted[p]);
                if has_entity {
                    assert(fetches@.contains(fetches@[p]));
                } else if total > 0 {
                    assert(!sorted[total - 1].spec_lt(sorted[p]));
                }
            }
            assert(sorted_fetches(fetches@)) by {
                assert forall|i: int, j: int| 0 <= i <= j < fetches@.len() implies !fetches@[j].spec_lt(
                    fetches@[i],
                ) by {
                    assert(fetches@[i] == sorted[i] && fetches@[j] == sorted[j]);
                }
            }
        }
        let first_end: usize = end_of_kind(&fetches, 0, Fetch::READ_IDX);
        let second_end: usize = end_of_kind(&fetches, first_end, Fetch::MUT_IDX);
        let third_end: usize = end_of_kind(&fetches, second_end, Fetch::OPTION_READ_IDX);
        let mut data: Vec<FetchComponent> = Vec::with_capacity(count);
        let mut p: usize = 0;
        while p < count
            invariant
                p <= count,
                count == fetches@.len(),
                data@.len() == p,
                forall|k: int| 0 <= k < count ==> !((#[trigger] fetches@[k]) is Entity),
                forall|k: int|
                    0 <= k < p ==> (#[trigger] data@[k]).id.wf() && fetches@[k] == fetch_of(
                        fetches@[k].spec_discriminant_index() as int,
                        data@[k],
                    ),
            decreases count - p,
        {
            let info: &FetchData = fetches[p].data();
            let id: ComponentId = info.id;
            proof {
                use_type_invariant(id);
            }
            data.push(FetchComponent { id, from_ptr: info.from_ptr.clone() });
            p += 1;
        }
        let ghost cells = data@;
        proof {
            assert forall|i: int, j: int|
                0 <= i < sorted.len() && 0 <= j < sorted.len() && i != j && required_key()(
                    sorted[i],
                ) is Some && required_key()(sorted[i]) == required_key()(
                    sorted[j],
                ) implies i < second_end && j < second_end && cells[i].id == cells[j].id by {
                assert(i < count && j < count) by {
                    if has_entity {
                        assert(sorted[count as int] == Fetch::Entity);
                    }
                }
                assert(fetches@[i] == sorted[i] && fetches@[j] == sorted[j]);
                crate::store::lemma_component_id_by_index(cells[i].id, cells[j].id);
            }
        }
        if duplicates_in(vstd::slice::slice_subrange(data.as_slice(), 0, second_end)) {
            proof {
                let (i, j) = choose|i: int, j: int|
                    0 <= i < j < second_end && cells[i].id == cells[j].id;
                assert(fetches@[i] == sorted[i] && fetches@[j] == sorted[j]);
                assert(required_key()(sorted[i]) == required_key()(sorted[j]));
                assert(!distinct_required(sorted));
                if distinct_required(described) {
                    lemma_keyed_distinct_reordered(described, sorted, required_key());
                }
            }
            return Err(BuildError::DuplicateFetch);
        }
        proof {
            assert(distinct_required(sorted)) by {
                assert forall|i: int, j: int|
                    0 <= i < sorted.len() && 0 <= j < sorted.len() && i != j && required_key()(
                        sorted[i],
                    ) is Some implies required_key()(sorted[i]) != required_key()(sorted[j]) by {
                    if required_key()(sorted[i]) == required_key()(sorted[j]) {
                        let sub = cells.subrange(0, second_end as int);
                        if i < j {
                            assert(sub[i].id == sub[j].id);
                        } else {
                            assert(sub[j].id == sub[i].id);
                        }
                    }
                }
            }
            lemma_keyed_distinct_reordered(sorted, described, required_key());
        }
        match fetch_rows_new(first_end, second_end, third_end, data) {
            Some(components) => {
                let compiled = Fetches { has_entity, components };
                proof {
                    let items = compiled.items();
                    assert(items.len() == sorted.len());
                    assert forall|at: int| 0 <= at < items.len() implies items[at] == sorted[at] by {
                        if at < count {
                            assert(fetches@[at] == sorted[at]);
                            assert(cells[at].id.wf());
                        }
                    }
                    assert(items =~= sorted);
                }
                Ok(compiled)
            },
            None => vstd::pervasive::unreached(),
        }
    }
}

impl Clone for Fetches {
    /// A copy that fetches the same.
    fn clone(&self) -> (copy: Self)
        ensures
            copy.spec_has_entity() == self.spec_has_entity(),
            copy.cells() == self.cells(),
            copy.ends() == self.ends(),
            copy.wf(),
    {
        proof {
            use_type_invariant(self);
        }
        let components: FetchRows = fetch_rows_clone(&self.components);
        proof {
            let cells = fetch_cells(components);
            let ends = fetch_ends(components);
            assert(cells == self.cells());
            assert(ends == self.ends());
            assert(valid_buckets(ends, cells.len()));
            assert forall|i: int| 0 <= i < cells.len() implies (#[trigger] cells[i]).id.wf() by {
                assert(self.cells()[i].id.wf());
            }
            assert forall|i: int, j: int|
                0 <= i < j < bucket_start(ends, cells.len(), 2) implies cells[i].id
                != cells[j].id by {
                assert(self.cells()[i].id != self.cells()[j].id);
            }
            assert(self.has_entity ==> cells.len() < usize::MAX);
        }
        let copy = Fetches { has_entity: self.has_entity, components };
        proof {
            assert(copy.cells() == self.cells());
            assert(copy.ends() == self.ends());
            assert(copy.start(2) == self.start(2));
        }
        copy
    }
}

/// The place of the first of `components` with the index `id`.
fn position_of(components: &[FetchComponent], id: usize) -> (found: Option<usize>)
    ensures
        found matches Some(at) ==> at < components@.len() && components@[at as int].id@ == id
            && forall|k: int| 0 <= k < at ==> components@[k].id@ != id,
        found is None ==> forall|k: int| 0 <= k < components@.len() ==> components@[k].id@ != id,
{
    let mut at: usize = 0;
    while at < components.len()
        invariant
            at <= components@.len(),
            forall|k: int| 0 <= k < at ==> components@[k].id@ != id,
        decreases components.len() - at,
    {
        if components[at].id.index() == id {
            return Some(at);
        }
        at += 1;
    }
    None
}

impl Fetches {
    /// Whether an archetype with the components `ids` has every component
    /// that the query reads or writes.
    pub fn all_included(&self, ids: &[usize]) -> (all: bool)
        ensures
            all == self.spec_all_included(ids@),
    {
        proof {
            use_type_invariant(self);
        }
        let comps: &[FetchComponent] = self.rows(Fetch::READ_IDX, Fetch::MUT_IDX);
        assert(comps@ =~= self.required());
        let mut found: Bits = bits_new();
        let mut k: usize = 0;
        while k < ids.len()
            invariant
                k <= ids@.len(),
                comps@ == self.required(),
                forall|i: int, j: int| 0 <= i < j < comps@.len() ==> comps@[i].id != comps@[j].id,
                forall|at: nat|
                    bits_on(found).contains(at) <==> at < comps@.len() && exists|j: int|
                        0 <= j < k && #[trigger] ids@[j] == comps@[at as int].id@,
            decreases ids.len() - k,
        {
            let id: usize = ids[k];
            let ghost before = bits_on(found);
            match position_of(comps, id) {
                Some(idx) => {
                    bits_enable(&mut found, idx);
                    proof {
                        assert forall|at: nat|
                            bits_on(found).contains(at) <==> at < comps@.len() && exists|j: int|
                                0 <= j < k + 1 && #[trigger] ids@[j] == comps@[at as int].id@ by {
                            if at < comps@.len() && comps@[at as int].id@ == id {
                                if at < idx {
                                } else if at > idx {
                                    crate::store::lemma_component_id_by_index(
                                        comps@[at as int].id,
                                        comps@[idx as int].id,
                                    );
                                }
                                assert(ids@[k as int] == comps@[at as int].id@);
                            }
                            if before.contains(at) {
                                let j = choose|j: int|
                                    0 <= j < k && #[trigger] ids@[j] == comps@[at as int].id@;
                                assert(0 <= j < k + 1);
                            }
                        }
                    }
                },
                None => {
                    proof {
                        assert forall|at: nat|
                            bits_on(found).contains(at) <==> at < comps@.len() && exists|j: int|
                                0 <= j < k + 1 && #[trigger] ids@[j] == comps@[at as int].id@ by {
                            if before.contains(at) {
                                let j = choose|j: int|
                                    0 <= j < k && #[trigger] ids@[j] == comps@[at as int].id@;
                                assert(0 <= j < k + 1);
                            }
                        }
                    }
                },
            }
            k += 1;
        }
        let mut at: usize = 0;
        while at < comps.len()
            invariant
                at <= comps@.len(),
                comps@ == self.required(),
                forall|i: nat|
                    bits_on(found).contains(i) <==> i < comps@.len() && exists|j: int|
                        0 <= j < ids@.len() && #[trigger] ids@[j] == comps@[i as int].id@,
                forall|i: int| 0 <= i < at ==> has_component(ids@, (#[trigger] comps@[i]).id@),
            decreases comps.len() - at,
        {
            if !bits_test(&found, at) {
                proof {
                    if self.spec_all_included(ids@) {
                        assert(has_component(ids@, self.required()[at as int].id@));
                        assert(bits_on(found).contains(at as nat));
                    }
                }
                return false;
            }
            at += 1;
        }
        true
    }
}

impl Fetches {
    /// The item that the cell at `at` gives for `entity`: the access of the
    /// cell's row to the cell's component. The optional rows give nothing for
    /// a component that the entity lacks; read-only rows give shared access
    /// where the others give exclusive access.
    pub open spec fn plan_item(&self, entity: EntityCell, at: int, read_only: bool) -> DynamicItem {
        let id = self.cells()[at].id;
        let row = self.row_of(at);
        let found = if has_component(entity.component_ids(), id@) {
            Some(id)
        } else {
            None
        };
        if row == 0 {
            DynamicItem::Read(id)
        } else if row == 1 {
            if read_only {
                DynamicItem::Read(id)
            } else {
                DynamicItem::Mut(id)
            }
        } else if row == 2 {
            DynamicItem::OptionRead(found)
        } else {
            if read_only {
                DynamicItem::OptionRead(found)
            } else {
                DynamicItem::OptionMut(found)
            }
        }
    }

    /// The items that the cells from `from` on give for `entity`.
    pub open spec fn plan_from(&self, entity: EntityCell, from: int, read_only: bool) -> Seq<
        DynamicItem,
    > {
        Seq::new(
            (self.cells().len() - from) as nat,
            |k: int| self.plan_item(entity, from + k, read_only),
        )
    }

    /// The row that the query fetches for `entity`: the id of the entity if
    /// it is asked for, then the reads, the writes, the optional reads and the
    /// optional writes.
    pub open spec fn spec_row(&self, entity: EntityCell, read_only: bool) -> Seq<DynamicItem> {
        if self.spec_has_entity() {
            seq![DynamicItem::Entity(entity.id)] + self.plan_from(entity, 0, read_only)
        } else {
            self.plan_from(entity, 0, read_only)
        }
    }

    /// A cursor over the items of the row of `entity`.
    pub fn iter<'w, 's>(&'s self, entity: &'w EntityCell) -> (items: FetchesIter<'w, 's>)
        ensures
            items.remaining() == self.spec_row(*entity, false),
    {
        FetchesIter::new(self, entity)
    }

    /// A cursor over the items of the row of `entity`, with shared access in
    /// place of exclusive access.
    pub fn iter_read_only<'w, 's>(&'s self, entity: &'w EntityCell) -> (items: RoFetchesIter<
        'w,
        's,
    >)
        ensures
            items.remaining() == self.spec_row(*entity, true),
    {
        RoFetchesIter::new(self, entity)
    }
}

impl Fetches {
    /// Appends the row of `entity` to `buffer`, with shared access in place
    /// of exclusive access if `read_only`.
    pub fn fetch_into(
        &self,
        entity: &EntityCell,
        read_only: bool,
        buffer: &mut Vec<DynamicItem>,
    )
        ensures
            final(buffer)@ == old(buffer)@ + self.spec_row(*entity, read_only),
    {
        let mut items: FetchesIter<'_, '_> = FetchesIter::start(self, entity, read_only);
        loop
            invariant
                buffer@ + items.remaining() == old(buffer)@ + self.spec_row(*entity, read_only),
            ensures
                buffer@ == old(buffer)@ + self.spec_row(*entity, read_only),
            decreases items.remaining().len(),
        {
            let ghost rest = items.remaining();
            let ghost filled = buffer@;
            match items.next() {
                Some(item) => {
                    buffer.push(item);
                    proof {
                        assert(buffer@ + items.remaining() =~= filled + rest);
                    }
                },
                None => {
                    proof {
                        assert(filled + rest =~= filled);
                    }
                    break ;
                },
            }
        }
    }
}

/// A cursor over the items of one fetched row.
pub struct FetchesIter<'w, 's> {
    has_entity: bool,
    read_only: bool,
    fetches: &'s Fetches,
    entity: &'w EntityCell,
    row_index: usize,
    offset: usize,
}

/// A cursor over the items of one fetched row, with shared access only.
pub struct RoFetchesIter<'w, 's>(FetchesIter<'w, 's>);

impl<'w, 's> FetchesIter<'w, 's> {
    /// The place of the next cell; the number of cells after the last row.
    spec fn place(&self) -> int {
        if self.row_index < 4 {
            self.fetches.start(self.row_index as int) + self.offset
        } else {
            self.fetches.cells().len() as int
        }
    }

    /// The items still to come.
    pub closed spec fn remaining(&self) -> Seq<DynamicItem> {
        if self.has_entity {
            seq![DynamicItem::Entity(self.entity.id)] + self.fetches.plan_from(
                *self.entity,
                self.place(),
                self.read_only,
            )
        } else {
            self.fetches.plan_from(*self.entity, self.place(), self.read_only)
        }
    }

    /// The cursor is within a row of legal rows, and has not moved before the
    /// id of the entity was handed out.
    #[verifier::type_invariant]
    spec fn wf(&self) -> bool {
        &&& self.fetches.wf()
        &&& self.row_index <= 4
        &&& self.row_index < 4 ==> self.fetches.start(self.row_index as int) + self.offset
            <= self.fetches.start(self.row_index + 1)
    }

    /// A cursor at the first item of the row of `entity`.
    fn new(fetches: &'s Fetches, entity: &'w EntityCell) -> (items: Self)
        ensures
            items.remaining() == fetches.spec_row(*entity, false),
    {
        Self::start(fetches, entity, false)
    }

    /// A cursor at the first item of the row of `entity`, with exclusive
    /// access or without.
    fn start(fetches: &'s Fetches, entity: &'w EntityCell, read_only: bool) -> (items: Self)
        ensures
            items.remaining() == fetches.spec_row(*entity, read_only),
    {
        proof {
            use_type_invariant(fetches);
        }
        FetchesIter {
            has_entity: fetches.has_entity,
            read_only,
            fetches,
            entity,
            row_index: 0,
            offset: 0,
        }
    }

    /// The next item of the row, or `None` after the last one.
    pub fn next(&mut self) -> (item: Option<DynamicItem>)
        ensures
            old(self).remaining().len() == 0 ==> item is None && final(self).remaining().len() == 0,
            old(self).remaining().len() > 0 ==> item == Some(old(self).remaining()[0])
                && final(self).remaining() == old(self).remaining().skip(1),
    {
        proof {
            use_type_invariant(&*self);
        }
        let fetches: &'s Fetches = self.fetches;
        let entity: &'w EntityCell = self.entity;
        let read_only: bool = self.read_only;
        if self.has_entity {
            let ghost rest = fetches.plan_from(*entity, self.place(), read_only);
            *self = FetchesIter {
                has_entity: false,
                read_only,
                fetches,
                entity,
                row_index: self.row_index,
                offset: self.offset,
            };
            proof {
                assert((seq![DynamicItem::Entity(entity.id)] + rest).skip(1) =~= rest);
            }
            return Some(DynamicItem::Entity(entity.id));
        }
        let mut row_index: usize = self.row_index;
        let mut offset: usize = self.offset;
        let ghost before = old(self).remaining();
        let ghost place = old(self).place();
        assert(before == fetches.plan_from(*entity, place, read_only));
        while row_index < 4
            invariant
                fetches.wf(),
                before == old(self).remaining(),
                before == fetches.plan_from(*entity, place, read_only),
                place == old(self).place(),
                row_index <= 4,
                row_index < 4 ==> fetches.start(row_index as int) + offset <= fetches.start(
                    row_index + 1,
                ),
                (if row_index < 4 {
                    fetches.start(row_index as int) + offset
                } else {
                    fetches.cells().len() as int
                }) == old(self).place(),
            decreases 4 - row_index,
        {
            let row: &[FetchComponent] = fetches.rows(row_index, row_index);
            if offset < row.len() {
                let comp: &FetchComponent = &row[offset];
                let ghost at = fetches.start(row_index as int) + offset;
                assert(fetches.cells()[at] == *comp);
                assert(fetches.row_of(at) == row_index) by {
                    lemma_starts_ordered(*fetches);
                }
                let found: Option<ComponentId> = if row_index >= 2 && entity.contains(
                    comp.id.index(),
                ) {
                    Some(comp.id)
                } else {
                    None
                };
                let item: DynamicItem = if row_index == 0 {
                    DynamicItem::Read(comp.id)
                } else if row_index == 1 {
                    if read_only {
                        DynamicItem::Read(comp.id)
                    } else {
                        DynamicItem::Mut(comp.id)
                    }
                } else if row_index == 2 {
                    DynamicItem::OptionRead(found)
                } else {
                    if read_only {
                        DynamicItem::OptionRead(found)
                    } else {
                        DynamicItem::OptionMut(found)
                    }
                };
                *self = FetchesIter {
                    has_entity: false,
                    read_only,
                    fetches,
                    entity,
                    row_index,
                    offset: offset + 1,
                };
                proof {
                    lemma_starts_ordered(*fetches);
                    assert(before[0] == fetches.plan_item(*entity, at, read_only));
                    assert(self.remaining() =~= before.skip(1));
                }
                return Some(item);
            }
            proof {
                lemma_starts_ordered(*fetches);
            }
            row_index += 1;
            offset = 0;
        }
        proof {
            assert(before.len() == 0);
        }
        *self = FetchesIter { has_entity: false, read_only, fetches, entity, row_index, offset };
        None
    }
}

/// No component is required twice: the reads and the writes of compiled
/// fetches are about different components, so that one row never holds two
/// accesses to one required component.
pub proof fn lemma_required_distinct(fetches: Fetches, i: int, j: int)
    requires
        fetches.wf(),
        0 <= i < j < fetches.required().len(),
    ensures
        fetches.required()[i].id != fetches.required()[j].id,
{
}

/// The two accesses that a row holds to required components are to different
/// components: where the cells at `i` and `j` are reads or writes, their
/// items name different components, so that exclusive access to a required
/// component is the only access to it among the required ones.
pub proof fn lemma_row_required_distinct(
    fetches: Fetches,
    entity: EntityCell,
    read_only: bool,
    i: int,
    j: int,
)
    requires
        fetches.wf(),
        0 <= i < j < fetches.required().len(),
    ensures
        item_component(fetches.plan_item(entity, i, read_only)) is Some,
        item_component(fetches.plan_item(entity, j, read_only)) is Some,
        item_component(fetches.plan_item(entity, i, read_only)) != item_component(
            fetches.plan_item(entity, j, read_only),
        ),
{
    lemma_required_distinct(fetches, i, j);
}

/// The component that an item gives access to, if it gives access to one.
pub open spec fn item_component(item: DynamicItem) -> Option<ComponentId> {
    match item {
        DynamicItem::Entity(_) => None,
        DynamicItem::Read(id) => Some(id),
        DynamicItem::Mut(id) => Some(id),
        DynamicItem::OptionRead(found) => found,
        DynamicItem::OptionMut(found) => found,
    }
}

/// The rows of compiled fetches start in order, within the cells.
pub proof fn lemma_starts_ordered(fetches: Fetches)
    requires
        fetches.wf(),
    ensures
        0 == fetches.start(0) <= fetches.start(1) <= fetches.start(2) <= fetches.start(3)
            <= fetches.start(4) == fetches.cells().len(),
{
}

impl<'w, 's> RoFetchesIter<'w, 's> {
    /// The items still to come.
    pub closed spec fn remaining(&self) -> Seq<DynamicItem> {
        self.0.remaining()
    }

    /// A cursor at the first item of the row of `entity`.
    fn new(fetches: &'s Fetches, entity: &'w EntityCell) -> (items: Self)
        ensures
            items.remaining() == fetches.spec_row(*entity, true),
    {
        RoFetchesIter(FetchesIter::start(fetches, entity, true))
    }

    /// The next item of the row, or `None` after the last one.
    pub fn next(&mut self) -> (item: Option<DynamicItem>)
        ensures
            old(self).remaining().len() == 0 ==> item is None && final(self).remaining().len() == 0,
            old(self).remaining().len() > 0 ==> item == Some(old(self).remaining()[0])
                && final(self).remaining() == old(self).remaining().skip(1),
    {
        self.0.next()
    }
}

} // verus!
