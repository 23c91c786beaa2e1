//! A thread-safety gated lens over the store.
//!
//! The view exposes only operations whose type parameters are also
//! `Send + Sync`: that compile-time bound is what makes it sound to hand
//! shared references to the view to concurrent readers, since through a
//! shared reference only the read-only surface is reachable. Operations
//! that mutate demand exclusive access to the view itself.

use vstd::prelude::*;
use crate::Component;
use crate::Entity;
use crate::resource::Resource;
use crate::store::EntitiesAndComponents;

verus! {

/// The store behind a thread-shareability gate: every type parameter of
/// its operations must be `Send + Sync`.
pub struct EntitiesAndComponentsThreadSafe {
    store: EntitiesAndComponents,
}

impl EntitiesAndComponentsThreadSafe {
    /// The store the view wraps.
    pub closed spec fn spec_store(self) -> EntitiesAndComponents {
        self.store
    }

    /// Puts a store behind the thread-safety screen.
    pub(crate) fn new(store: EntitiesAndComponents) -> (r: Self)
        ensures
            r.spec_store() == store,
    {
        EntitiesAndComponentsThreadSafe { store }
    }

    /// Hands the store back.
    pub(crate) fn into_inner(self) -> (r: EntitiesAndComponents)
        ensures
            r == self.spec_store(),
    {
        self.store
    }

    /// Adds an empty entity; demands the view exclusively.
    pub fn add_entity(&mut self) -> (h: Entity)
        requires
            old(self).spec_store().wf(),
        ensures
            final(self).spec_store().wf(),
            EntitiesAndComponents::spec_entity_added(
                old(self).spec_store(),
                final(self).spec_store(),
                h,
            ),
    {
        self.store.add_entity()
    }

    /// Adds an entity that starts with the two given components.
    pub fn add_entity_with<A: Component + Send + Sync, B: Component + Send + Sync>(
        &mut self,
        a: A,
        b: B,
    ) -> (h: Entity)
        requires
            old(self).spec_store().wf(),
        ensures
            final(self).spec_store().wf(),
            final(self).spec_store().valid(h),
            !old(self).spec_store().valid(h),
    {
        self.store.add_entity_with(a, b)
    }

    /// Removes an entity; demands the view exclusively.
    pub fn remove_entity(&mut self, entity: Entity)
        requires
            old(self).spec_store().wf(),
            old(self).spec_store().valid(entity),
        ensures
            final(self).spec_store().wf(),
            EntitiesAndComponents::spec_entity_removed(
                old(self).spec_store(),
                final(self).spec_store(),
                entity,
            ),
    {
        self.store.remove_entity(entity)
    }

    /// All live handles, in slot order.
    pub fn get_entities(&self) -> (r: Vec<Entity>)
        requires
            self.spec_store().wf(),
        ensures
            r@ == self.spec_store().live_handles(),
    {
        self.store.get_entities()
    }

    /// The `index`th live handle, if there are that many live entities.
    pub fn get_nth_entity(&self, index: usize) -> (r: Option<Entity>)
        requires
            self.spec_store().wf(),
        ensures
            match r {
                Some(h) => index < self.spec_store().live_handles().len() && h
                    == self.spec_store().live_handles()[index as int] && self.spec_store().valid(h),
                None => index >= self.spec_store().live_handles().len(),
            },
    {
        self.store.get_nth_entity(index)
    }

    /// The number of live entities.
    pub fn get_entity_count(&self) -> (r: usize)
        requires
            self.spec_store().wf(),
        ensures
            r == self.spec_store().live_handles().len(),
    {
        self.store.get_entity_count()
    }

    /// Whether a handle is still valid.
    pub fn is_valid(&self, entity: Entity) -> (r: bool)
        ensures
            r == self.spec_store().valid(entity),
    {
        self.store.is_valid(entity)
    }

    /// Borrows the entity's component of a thread-shareable type.
    pub fn try_get_component<T: Component + Send + Sync>(&self, entity: Entity) -> (r: Option<&T>)
        requires
            self.spec_store().wf(),
            self.spec_store().valid(entity),
    {
        self.store.try_get_component::<T>(entity)
    }

    /// Exclusive access to the entity's component of a thread-shareable
    /// type; demands the view exclusively.
    pub fn try_get_component_mut<T: Component + Send + Sync>(&mut self, entity: Entity) -> (r:
        Option<&mut T>)
        requires
            old(self).spec_store().wf(),
            old(self).spec_store().valid(entity),
        ensures
            final(self).spec_store().wf(),
            forall|h2: Entity|
                final(self).spec_store().valid(h2) == old(self).spec_store().valid(h2),
            final(self).spec_store().same_resources(old(self).spec_store()),
    {
        self.store.try_get_component_mut::<T>(entity)
    }

    /// Borrows two of the entity's components at once.
    pub fn try_get_components<A: Component + Send + Sync, B: Component + Send + Sync>(
        &self,
        entity: Entity,
    ) -> (r: (Option<&A>, Option<&B>))
        requires
            self.spec_store().wf(),
            self.spec_store().valid(entity),
    {
        self.store.try_get_components::<A, B>(entity)
    }

    /// Stores a component of a thread-shareable type; demands the view
    /// exclusively.
    pub fn add_component_to<T: Component + Send + Sync>(&mut self, entity: Entity, component: T)
        requires
            old(self).spec_store().wf(),
            old(self).spec_store().valid(entity),
        ensures
            final(self).spec_store().wf(),
            EntitiesAndComponents::spec_some_component_added(
                old(self).spec_store(),
                final(self).spec_store(),
                entity,
            ),
    {
        self.store.add_component_to(entity, component);
    }

    /// Drops the entity's component of a thread-shareable type; demands
    /// the view exclusively.
    pub fn remove_component_from<T: Component + Send + Sync>(&mut self, entity: Entity)
        requires
            old(self).spec_store().wf(),
            old(self).spec_store().valid(entity),
        ensures
            final(self).spec_store().wf(),
            EntitiesAndComponents::spec_some_component_removed(
                old(self).spec_store(),
                final(self).spec_store(),
                entity,
            ),
    {
        self.store.remove_component_from::<T>(entity);
    }

    /// All entities that hold a component of a thread-shareable type.
    pub fn get_entities_with_component<T: Component + Send + Sync>(&self) -> (r: Vec<Entity>)
        requires
            self.spec_store().wf(),
        ensures
            forall|j: int| 0 <= j < r@.len() ==> self.spec_store().valid(r@[j]),
    {
        self.store.get_entities_with_component::<T>()
    }

    /// How many entities hold a component of a thread-shareable type.
    pub fn get_entity_count_with_component<T: Component + Send + Sync>(&self) -> (r: usize)
        requires
            self.spec_store().wf(),
    {
        self.store.get_entity_count_with_component::<T>()
    }

    /// The `index`th entity holding a component of a thread-shareable
    /// type; linear.
    pub fn get_entity_with_component<T: Component + Send + Sync>(&self, index: usize) -> (r: Option<
        Entity,
    >)
        requires
            self.spec_store().wf(),
        ensures
            match r {
                Some(h) => self.spec_store().valid(h),
                None => true,
            },
    {
        self.store.get_entity_with_component::<T>(index)
    }

    /// Borrows the resource of a thread-shareable type.
    pub fn get_resource<T: Resource + Send + Sync>(&self) -> (r: Option<&T>)
        requires
            self.spec_store().wf(),
    {
        self.store.get_resource::<T>()
    }

    /// Stores a resource of a thread-shareable type; demands the view
    /// exclusively.
    pub fn add_resource<T: Resource + Send + Sync>(&mut self, resource: T)
        requires
            old(self).spec_store().wf(),
        ensures
            final(self).spec_store().wf(),
            final(self).spec_store().same_entities(old(self).spec_store()),
    {
        self.store.add_resource(resource)
    }

    /// Exclusive access to the resource of a thread-shareable type;
    /// demands the view exclusively.
    pub fn get_resource_mut<T: Resource + Send + Sync>(&mut self) -> (r: Option<&mut T>)
        requires
            old(self).spec_store().wf(),
        ensures
            final(self).spec_store().wf(),
            final(self).spec_store().same_entities(old(self).spec_store()),
    {
        self.store.get_resource_mut::<T>()
    }

    /// Drops the resource of a thread-shareable type; demands the view
    /// exclusively.
    pub fn remove_resource<T: Resource + Send + Sync>(&mut self)
        requires
            old(self).spec_store().wf(),
        ensures
            final(self).spec_store().wf(),
            final(self).spec_store().same_entities(old(self).spec_store()),
    {
        self.store.remove_resource::<T>()
    }
}

} // verus!
