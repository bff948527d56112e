//! The description of a query, before it is compiled: what to fetch from each
//! entity, and which entities to keep.
pub use methods::{DynamicQueryBuilder, OrBuilder};

use crate::store::ComponentId;
use bevy_reflect::ReflectFromPtr;
use std::cmp::Ordering;
use vstd::prelude::*;
use vstd::std_specs::cmp::{PartialEqSpecImpl, PartialOrdSpecImpl};

mod methods;

verus! {

/// Why a query description cannot be compiled.
#[derive(Clone, Copy, Debug, PartialEq, Eq, Structural)]
pub enum BuildError {
    /// A component was named that the registry does not know.
    UnregisteredComponent,
    /// The same component is fetched twice, by `Read` or `Mut`.
    DuplicateFetch,
    /// The same component is asked for twice within one conjunction, by
    /// `With`, `Changed` or `Added`.
    DuplicateFilter,
}

/// One condition on the components of an entity.
#[derive(Clone, Copy, Debug)]
pub enum AndFilter {
    /// The entity has the component.
    With(ComponentId),
    /// The entity does not have the component.
    Without(ComponentId),
    /// The entity has the component, and it changed since the last run.
    Changed(ComponentId),
    /// The entity has the component, and it was added since the last run.
    Added(ComponentId),
}

impl AndFilter {
    /// The component that the condition is about.
    pub open spec fn spec_id(self) -> ComponentId {
        match self {
            AndFilter::With(id) => id,
            AndFilter::Without(id) => id,
            AndFilter::Changed(id) => id,
            AndFilter::Added(id) => id,
        }
    }

    /// The condition asks for the component to be there.
    pub open spec fn is_inclusive(self) -> bool {
        !(self is Without)
    }
}

/// Conditions that must all hold.
#[derive(Clone, Debug)]
pub struct AndFilters(pub Vec<AndFilter>);

/// Groups of conditions of which one must hold. Without any group, every
/// entity is kept.
#[derive(Clone, Debug)]
pub struct OrFilters(pub Vec<AndFilters>);

impl OrFilters {
    /// How many conditions the groups hold together.
    pub open spec fn atom_count(&self) -> nat {
        count_atoms(self.0@)
    }
}

/// How many conditions `groups` hold together.
pub open spec fn count_atoms(groups: Seq<AndFilters>) -> nat
    decreases groups.len(),
{
    if groups.len() == 0 {
        0
    } else {
        count_atoms(groups.drop_last()) + groups.last().0@.len()
    }
}

/// The first groups of a list hold no more conditions than the whole list.
pub proof fn lemma_count_atoms_prefix(groups: Seq<AndFilters>, n: int)
    requires
        0 <= n <= groups.len(),
    ensures
        count_atoms(groups.take(n)) <= count_atoms(groups),
        n < groups.len() ==> count_atoms(groups.take(n + 1)) == count_atoms(groups.take(n))
            + groups[n].0@.len(),
    decreases groups.len() - n,
{
    if n < groups.len() {
        assert(groups.take(n + 1).drop_last() =~= groups.take(n));
        lemma_count_atoms_prefix(groups, n + 1);
    } else {
        assert(groups.take(n) =~= groups);
    }
}

impl Default for OrFilters {
    fn default() -> (filters: Self)
        ensures
            filters.0@.len() == 0,
    {
        OrFilters(Vec::new())
    }
}

/// The component that a fetch reads or writes, and how to get at its value.
#[derive(Clone)]
pub struct FetchData {
    /// The component.
    pub id: ComponentId,
    /// The accessor of the component's type.
    pub from_ptr: ReflectFromPtr,
}

/// One item to fetch from each entity.
///
/// The variants are declared in the order of the rows of a fetched item list:
/// reads, writes, optional reads, optional writes, and the entity last.
#[derive(Clone)]
pub enum Fetch {
    /// Shared access to a component that the entity must have.
    Read(FetchData),
    /// Exclusive access to a component that the entity must have.
    Mut(FetchData),
    /// Shared access to a component, if the entity has it.
    OptionRead(FetchData),
    /// Exclusive access to a component, if the entity has it.
    OptionMut(FetchData),
    /// The id of the entity.
    Entity,
}

impl Fetch {
    /// The row of `Read` fetches.
    pub const READ_IDX: usize = 0;

    /// The row of `Mut` fetches.
    pub const MUT_IDX: usize = 1;

    /// The row of `OptionRead` fetches.
    pub const OPTION_READ_IDX: usize = 2;

    /// The row of `OptionMut` fetches.
    pub const OPTION_MUT_IDX: usize = 3;

    /// What `Entity` has in place of a row.
    pub const ENTITY_IDX: usize = 4;

    /// The position of the variant in the fixed order of fetches.
    pub open spec fn spec_discriminant_index(self) -> nat {
        match self {
            Fetch::Read(_) => 0,
            Fetch::Mut(_) => 1,
            Fetch::OptionRead(_) => 2,
            Fetch::OptionMut(_) => 3,
            Fetch::Entity => 4,
        }
    }

    /// The index of the fetched component; 0 for `Entity`.
    pub open spec fn spec_component(self) -> nat {
        match self {
            Fetch::Read(data) => data.id@,
            Fetch::Mut(data) => data.id@,
            Fetch::OptionRead(data) => data.id@,
            Fetch::OptionMut(data) => data.id@,
            Fetch::Entity => 0,
        }
    }

    /// `self` comes before `other`: it is of an earlier variant, or of the
    /// same variant with a smaller component index.
    pub open spec fn spec_lt(self, other: Fetch) -> bool {
        self.spec_discriminant_index() < other.spec_discriminant_index() || (
        self.spec_discriminant_index() == other.spec_discriminant_index() && self.spec_component()
            < other.spec_component())
    }

    /// The two fetches are of the same variant and component.
    pub open spec fn spec_same(self, other: Fetch) -> bool {
        self.spec_discriminant_index() == other.spec_discriminant_index() && self.spec_component()
            == other.spec_component()
    }

    /// The position of the variant in the fixed order of fetches.
    pub fn discriminant_index(&self) -> (index: usize)
        ensures
            index == self.spec_discriminant_index(),
    {
        match self {
            Fetch::Read(_) => Fetch::READ_IDX,
            Fetch::Mut(_) => Fetch::MUT_IDX,
            Fetch::OptionRead(_) => Fetch::OPTION_READ_IDX,
            Fetch::OptionMut(_) => Fetch::OPTION_MUT_IDX,
            Fetch::Entity => Fetch::ENTITY_IDX,
        }
    }

    /// The component of a fetch that is not `Entity`.
    pub fn data(&self) -> (data: &FetchData)
        requires
            !(self is Entity),
        ensures
            data.id@ == self.spec_component(),
            *self == Fetch::Read(*data) || *self == Fetch::Mut(*data) || *self == Fetch::OptionRead(
                *data,
            ) || *self == Fetch::OptionMut(*data),
    {
        match self {
            Fetch::Read(data) => data,
            Fetch::Mut(data) => data,
            Fetch::OptionRead(data) => data,
            Fetch::OptionMut(data) => data,
            Fetch::Entity => vstd::pervasive::unreached(),
        }
    }

    /// The component index of the fetch; 0 for `Entity`.
    pub fn component(&self) -> (index: usize)
        ensures
            index == self.spec_component(),
    {
        match self {
            Fetch::Read(data) => data.id.index(),
            Fetch::Mut(data) => data.id.index(),
            Fetch::OptionRead(data) => data.id.index(),
            Fetch::OptionMut(data) => data.id.index(),
            Fetch::Entity => 0,
        }
    }
}

impl PartialEq for Fetch {
    fn eq(&self, other: &Self) -> (same: bool) {
        self.discriminant_index() == other.discriminant_index() && self.component()
            == other.component()
    }
}

impl Eq for Fetch {

}

impl PartialEqSpecImpl for Fetch {
    open spec fn obeys_eq_spec() -> bool {
        true
    }

    open spec fn eq_spec(&self, other: &Self) -> bool {
        self.spec_same(*other)
    }
}

impl PartialOrd for Fetch {
    fn partial_cmp(&self, other: &Self) -> (order: Option<Ordering>) {
        let left: usize = self.discriminant_index();
        let right: usize = other.discriminant_index();
        if left < right {
            Some(Ordering::Less)
        } else if left > right {
            Some(Ordering::Greater)
        } else {
            let left_id: usize = self.component();
            let right_id: usize = other.component();
            if left_id < right_id {
                Some(Ordering::Less)
            } else if left_id > right_id {
                Some(Ordering::Greater)
            } else {
                Some(Ordering::Equal)
            }
        }
    }
}

impl PartialOrdSpecImpl for Fetch {
    open spec fn obeys_partial_cmp_spec() -> bool {
        true
    }

    open spec fn partial_cmp_spec(&self, other: &Self) -> Option<Ordering> {
        if self.spec_lt(*other) {
            Some(Ordering::Less)
        } else if other.spec_lt(*self) {
            Some(Ordering::Greater)
        } else {
            Some(Ordering::Equal)
        }
    }
}

} // verus!
