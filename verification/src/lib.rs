//! A verified entity-component-system core.
//!
//! Entities are generational handles into a slot table; each live entity
//! owns a bag of type-keyed components, mirrored by a reverse index that
//! answers "all entities holding key k" queries.
//!
//! Component types are told apart at runtime by a word-sized key hashed
//! from the language's type identifier (`key_of`). Two distinct types
//! share a key only with astronomically unlikely hash probability, and
//! even then the stored value's own type identity is checked on the way
//! out, so a collision can only surface as a missing component (`None`),
//! never as a value of the wrong type.

use vstd::prelude::*;

mod cursor;
mod erased;
mod resource;
mod store;
mod table;
mod veneer;
mod view;
mod world;

pub use cursor::SingleMutEntity;
pub use erased::Erased;
pub use erased::erase;
pub use erased::erased_mut;
pub use erased::erased_ref;
pub use erased::key_of;
pub use resource::Resource;
pub use resource::ResourceCell;
pub use store::EntitiesAndComponents;
pub use view::EntitiesAndComponentsThreadSafe;
pub use world::CHUNK_SIZE;
pub use world::System;
pub use world::World;
pub use world::entity_chunks;
pub use world::lemma_chunks_cover;

verus! {

/// A handle to one entity: a slot index paired with the generation the
/// slot had when the entity was created. A handle is valid only while
/// the slot still carries the same generation.
#[derive(Clone, Copy, PartialEq, Eq, Structural, Debug, Hash, PartialOrd, Ord)]
pub struct Entity {
    pub(crate) index: usize,
    pub(crate) generation: u64,
}

impl Entity {
    /// The slot index this handle points at.
    pub closed spec fn spec_index(self) -> usize {
        self.index
    }

    /// The generation this handle was created under.
    pub closed spec fn spec_generation(self) -> u64 {
        self.generation
    }
}

/// Components are the data stored on entities; any owned static type
/// qualifies, no annotation needed.
pub trait Component: 'static {
}

impl<T: 'static> Component for T {
}

} // verus!
