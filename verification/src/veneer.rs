//! The type-keyed face of the store: each method derives the component's
//! runtime key from its type, erases or recovers the value, and routes
//! to the key-addressed operations. The exact change is pinned down by
//! the key-addressed contracts; here the key exists but is not named, so
//! these contracts quantify over it.

use vstd::prelude::*;
use crate::Component;
use crate::Entity;
use crate::erased::Erased;
use crate::erased::erase;
use crate::erased::erased_mut;
use crate::erased::erased_ref;
use crate::erased::key_of;
use crate::resource::Resource;
use crate::resource::ResourceCell;
use crate::resource::res_cell;
use crate::resource::res_mut;
use crate::resource::res_ref;
use crate::store::EntitiesAndComponents;

verus! {

impl EntitiesAndComponents {
    /// Adds an entity that starts with the two given components; the
    /// second overwrites the first when both are of one type.
    pub fn add_entity_with<A: Component, B: Component>(&mut self, a: A, b: B) -> (h: Entity)
        requires
            old(self).wf(),
        ensures
            final(self).wf(),
            final(self).valid(h),
            !old(self).valid(h),
            forall|h2: Entity| h2 != h ==> final(self).valid(h2) == old(self).valid(h2),
            forall|h2: Entity|
                h2 != h && old(self).valid(h2) ==> final(self).bag(h2) == old(self).bag(h2)
                    && final(self).key_list(h2) == old(self).key_list(h2),
            exists|k1: u64, e1: Erased, k2: u64, e2: Erased|
                final(self).bag(h) == Map::<u64, Erased>::empty().insert(k1, e1).insert(k2, e2),
            final(self).live_handles().len() == old(self).live_handles().len() + 1,
            forall|h2: Entity|
                final(self).live_handles().contains(h2) <==> (old(self).live_handles().contains(h2)
                    || h2 == h),
            final(self).same_resources(*old(self)),
    {
        let h = self.add_entity();
        let k1 = key_of::<A>();
        let e1 = erase(a);
        self.add_component(h, k1, e1);
        let k2 = key_of::<B>();
        let e2 = erase(b);
        self.add_component(h, k2, e2);
        proof {
            assert(self.bag(h) =~= Map::<u64, Erased>::empty().insert(k1, e1).insert(k2, e2));
        }
        h
    }

    /// Stores a component on the entity under its type's key, dropping
    /// any earlier component of the same type.
    pub fn add_component_to<T: Component>(&mut self, entity: Entity, component: T)
        requires
            old(self).wf(),
            old(self).valid(entity),
        ensures
            final(self).wf(),
            Self::spec_some_component_added(*old(self), *final(self), entity),
    {
        let k = key_of::<T>();
        let e = erase(component);
        self.add_component(entity, k, e);
        proof {
            assert(Self::spec_component_added(*old(self), *self, entity, k, e));
        }
    }

    /// Drops the component of the given type from the entity; a silent
    /// no-op if the entity holds none.
    pub fn remove_component_from<T: Component>(&mut self, entity: Entity)
        requires
            old(self).wf(),
            old(self).valid(entity),
        ensures
            final(self).wf(),
            Self::spec_some_component_removed(*old(self), *final(self), entity),
    {
        let k = key_of::<T>();
        let _ = self.remove_component(entity, k);
        proof {
            assert(Self::spec_component_removed(*old(self), *self, entity, k));
        }
    }

    /// Borrows the entity's component of the given type, or `None` when
    /// the entity holds none. A stale handle is refused up front.
    pub fn try_get_component<T: Component>(&self, entity: Entity) -> (r: Option<&T>)
        requires
            self.wf(),
            self.valid(entity),
        ensures
            r.is_some() ==> exists|k: u64| self.bag(entity).contains_key(k),
    {
        let k = key_of::<T>();
        match self.try_get_erased(entity, k) {
            Some(e) => erased_ref::<T>(e),
            None => None,
        }
    }

    /// Exclusive access to the entity's component of the given type, or
    /// `None` when it holds none. Whatever the caller writes through the
    /// reference, only that one component's value changes: the type
    /// lists, the reverse index, the other entities and the resources
    /// all stay as they were.
    pub fn try_get_component_mut<T: Component>(&mut self, entity: Entity) -> (r: Option<&mut T>)
        requires
            old(self).wf(),
            old(self).valid(entity),
        ensures
            final(self).wf(),
            forall|h2: Entity| final(self).valid(h2) == old(self).valid(h2),
            forall|h2: Entity|
                h2 != entity && old(self).valid(h2) ==> final(self).bag(h2) == old(self).bag(h2)
                    && final(self).key_list(h2) == old(self).key_list(h2),
            final(self).key_list(entity) == old(self).key_list(entity),
            forall|k2: u64| final(self).with_key(k2) == old(self).with_key(k2),
            final(self).live_handles() == old(self).live_handles(),
            final(self).slot_count() == old(self).slot_count(),
            forall|i: int|
                0 <= i < old(self).slot_count() ==> final(self).slot_generation(i) == old(
                    self,
                ).slot_generation(i),
            final(self).same_resources(*old(self)),
    {
        let k = key_of::<T>();
        if self.has_erased(entity, k) {
            let e = self.get_erased_mut(entity, k);
            erased_mut::<T>(e)
        } else {
            None
        }
    }

    /// Borrows two components of the entity at once, each slot `None`
    /// where the entity holds no component of that type.
    pub fn try_get_components<A: Component, B: Component>(&self, entity: Entity) -> (r: (
        Option<&A>,
        Option<&B>,
    ))
        requires
            self.wf(),
            self.valid(entity),
        ensures
            r.0.is_some() ==> exists|k: u64| self.bag(entity).contains_key(k),
            r.1.is_some() ==> exists|k: u64| self.bag(entity).contains_key(k),
    {
        (self.try_get_component::<A>(entity), self.try_get_component::<B>(entity))
    }

    /// All entities that hold a component of the given type, in the
    /// reverse index's order; every handle in the answer is valid.
    pub fn get_entities_with_component<T: Component>(&self) -> (r: Vec<Entity>)
        requires
            self.wf(),
        ensures
            exists|k: u64| r@ == self.with_key(k),
            forall|j: int| 0 <= j < r@.len() ==> self.valid(r@[j]),
    {
        let k = key_of::<T>();
        let r = self.entities_with_key(k);
        proof {
            assert forall|j: int| 0 <= j < r@.len() implies self.valid(r@[j]) by {
                self.lemma_indexed_holds_component(k, j);
            }
        }
        r
    }

    /// How many entities hold a component of the given type.
    pub fn get_entity_count_with_component<T: Component>(&self) -> (r: usize)
        requires
            self.wf(),
        ensures
            exists|k: u64| r == self.with_key(k).len(),
    {
        let k = key_of::<T>();
        self.count_with_key(k)
    }

    /// The `index`th entity holding a component of the given type;
    /// linear, callers that want them all should take
    /// `get_entities_with_component` instead.
    pub fn get_entity_with_component<T: Component>(&self, index: usize) -> (r: Option<Entity>)
        requires
            self.wf(),
        ensures
            match r {
                Some(h) => self.valid(h),
                None => true,
            },
    {
        let k = key_of::<T>();
        self.nth_entity_with_key(k, index)
    }

    /// Stores a resource under its type's key, overwriting any earlier
    /// resource of the same type.
    pub fn add_resource<T: Resource>(&mut self, resource: T)
        requires
            old(self).wf(),
        ensures
            final(self).wf(),
            final(self).same_entities(*old(self)),
            exists|k: u64, c: ResourceCell|
                final(self).resource_map() == old(self).resource_map().insert(k, c),
    {
        let k = key_of::<T>();
        let c = res_cell(resource);
        self.add_resource_cell(k, c);
    }

    /// Drops the resource of the given type, if any.
    pub fn remove_resource<T: Resource>(&mut self)
        requires
            old(self).wf(),
        ensures
            final(self).wf(),
            final(self).same_entities(*old(self)),
            exists|k: u64| final(self).resource_map() == old(self).resource_map().remove(k),
    {
        let k = key_of::<T>();
        self.remove_resource_cell(k);
    }

    /// Borrows the resource of the given type, or `None` when the store
    /// holds none.
    pub fn get_resource<T: Resource>(&self) -> (r: Option<&T>)
        requires
            self.wf(),
        ensures
            r.is_some() ==> exists|k: u64| self.resource_map().contains_key(k),
    {
        let k = key_of::<T>();
        match self.get_resource_cell(k) {
            Some(c) => res_ref::<T>(c),
            None => None,
        }
    }

    /// Exclusive access to the resource of the given type, or `None`
    /// when the store holds none. The entities and the update order stay
    /// as they were.
    pub fn get_resource_mut<T: Resource>(&mut self) -> (r: Option<&mut T>)
        requires
            old(self).wf(),
        ensures
            final(self).wf(),
            final(self).same_entities(*old(self)),
            final(self).resource_keys() == old(self).resource_keys(),
    {
        let k = key_of::<T>();
        let held = match self.get_resource_cell(k) {
            Some(_) => true,
            None => false,
        };
        if held {
            let c = self.get_resource_cell_mut(k);
            res_mut::<T>(c)
        } else {
            None
        }
    }
}

} // verus!
