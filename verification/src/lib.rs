//! Queries over an entity/component store, described at run time.
//!
//! A query names the components to fetch from each entity and the conditions
//! that an entity must meet. It is compiled once, into [`DynamicQuery`]. A
//! [`DynamicState`] holds a compiled query together with the set of the
//! store's archetypes that can hold entities of the query; the set is extended
//! as the store gets new archetypes. The state answers for single entities
//! (`get`) and walks all entities of the query (`iter`).
pub use builder::{AndFilter, AndFilters, BuildError, Fetch, FetchData, OrFilters};
pub use dynamic_query::{DynamicItem, DynamicQuery};
pub use state::{DynamicQueryError, DynamicState, Ticks};
pub use store::{ArchetypeId, ComponentId, ComponentTicks, Entity, EntityCell, Tick};

pub mod archematch;
pub mod bits;
pub mod builder;
pub mod dynamic_query;
pub mod fetches;
pub mod filters;
pub mod iter;
pub mod jagged_array;
pub mod permutation;
pub mod state;
pub mod store;
