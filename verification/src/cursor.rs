//! A lens that bounds mutable access to one entity's row of the store.
//!
//! The cursor owns the store for as long as it lives and only exposes
//! operations on its one entity, so whatever code drives it — however
//! untrusted — can only touch that entity's row. That row-locality is
//! the soundness argument for dispatching per-entity work entity by
//! entity: two cursors on distinct entities can never reach the same
//! component.

use vstd::prelude::*;
use crate::Component;
use crate::Entity;
use crate::erased::erase;
use crate::erased::key_of;
use crate::store::EntitiesAndComponents;

verus! {

/// Exclusive access to one entity's components. After `remove_entity`
/// the cursor's handle is dead; every operation demands a live handle,
/// which a removed one can never satisfy again.
pub struct SingleMutEntity {
    entity: Entity,
    store: EntitiesAndComponents,
}

impl SingleMutEntity {
    /// The entity this cursor is bound to.
    pub closed spec fn spec_entity(self) -> Entity {
        self.entity
    }

    /// The store the cursor carries.
    pub closed spec fn spec_store(self) -> EntitiesAndComponents {
        self.store
    }

    /// A live cursor: the store is well-formed and the bound entity is
    /// still valid.
    pub open spec fn wf(self) -> bool {
        &&& self.spec_store().wf()
        &&& self.spec_store().valid(self.spec_entity())
    }

    /// Row-locality: between two cursor states, only the bound entity's
    /// row may differ. Every other entity keeps its validity, its bag
    /// and its index records; the resources and the slot layout beyond
    /// the bound entity's own slot are untouched.
    pub open spec fn row_local(pre: Self, post: Self) -> bool {
        &&& post.spec_entity() == pre.spec_entity()
        &&& post.spec_store().wf()
        &&& forall|h2: Entity|
            h2 != pre.spec_entity() ==> post.spec_store().valid(h2) == pre.spec_store().valid(h2)
        &&& forall|h2: Entity|
            h2 != pre.spec_entity() && pre.spec_store().valid(h2) ==> post.spec_store().bag(h2)
                == pre.spec_store().bag(h2) && post.spec_store().key_list(h2)
                == pre.spec_store().key_list(h2)
        &&& forall|k: u64, h2: Entity|
            h2 != pre.spec_entity() ==> (post.spec_store().with_key(k).contains(h2)
                <==> pre.spec_store().with_key(k).contains(h2))
        &&& forall|h2: Entity|
            h2 != pre.spec_entity() ==> (post.spec_store().live_handles().contains(h2)
                <==> pre.spec_store().live_handles().contains(h2))
        &&& post.spec_store().slot_count() == pre.spec_store().slot_count()
        &&& forall|i: int|
            0 <= i < pre.spec_store().slot_count() && i != pre.spec_entity().spec_index()
                ==> post.spec_store().slot_generation(i) == pre.spec_store().slot_generation(i)
        &&& post.spec_store().slot_generation(pre.spec_entity().spec_index() as int)
            >= pre.spec_store().slot_generation(pre.spec_entity().spec_index() as int)
        &&& post.spec_store().same_resources(pre.spec_store())
    }

    /// Binds a cursor to one valid entity, taking the store along.
    pub fn new(store: EntitiesAndComponents, entity: Entity) -> (r: Self)
        requires
            store.wf(),
            store.valid(entity),
        ensures
            r.wf(),
            r.spec_store() == store,
            r.spec_entity() == entity,
    {
        SingleMutEntity { entity, store }
    }

    /// Hands the store back when the cursor's work is done.
    pub fn into_store(self) -> (r: EntitiesAndComponents)
        ensures
            r == self.spec_store(),
    {
        self.store
    }

    /// The entity this cursor is bound to.
    pub fn get_entity(&self) -> (r: Entity)
        ensures
            r == self.spec_entity(),
    {
        self.entity
    }

    /// Whether the entity holds a component of the given type.
    pub fn has_component<T: Component>(&self) -> (r: bool)
        requires
            self.wf(),
    {
        self.store.try_get_component::<T>(self.entity).is_some()
    }

    /// Borrows the entity's component of the given type, or `None` when
    /// it holds none.
    pub fn try_get_component<T: Component>(&self) -> (r: Option<&T>)
        requires
            self.wf(),
    {
        self.store.try_get_component::<T>(self.entity)
    }

    /// Borrows two of the entity's components at once, each slot `None`
    /// where it holds no component of that type.
    pub fn try_get_components<A: Component, B: Component>(&self) -> (r: (Option<&A>, Option<&B>))
        requires
            self.wf(),
    {
        self.store.try_get_components::<A, B>(self.entity)
    }

    /// Exclusive access to the entity's component of the given type, or
    /// `None` when it holds none. Only this entity's row can change, and
    /// only in the value written through the reference.
    pub fn try_get_component_mut<T: Component>(&mut self) -> (r: Option<&mut T>)
        requires
            old(self).wf(),
        ensures
            final(self).wf(),
            Self::row_local(*old(self), *final(self)),
    {
        let entity = self.entity;
        proof {
            self.store.lemma_valid_bounds(entity);
        }
        self.store.try_get_component_mut::<T>(entity)
    }

    /// Stores a component on the entity, dropping any earlier component
    /// of the same type. Only this entity's row changes.
    pub fn add_component<T: Component>(&mut self, component: T)
        requires
            old(self).wf(),
        ensures
            final(self).wf(),
            Self::row_local(*old(self), *final(self)),
            EntitiesAndComponents::spec_some_component_added(
                old(self).spec_store(),
                final(self).spec_store(),
                old(self).spec_entity(),
            ),
    {
        let k = key_of::<T>();
        let e = erase(component);
        let entity = self.entity;
        proof {
            self.store.lemma_valid_bounds(entity);
        }
        self.store.add_component(entity, k, e);
        proof {
            assert(EntitiesAndComponents::spec_component_added(
                old(self).spec_store(),
                self.spec_store(),
                entity,
                k,
                e,
            ));
        }
    }

    /// Drops the entity's component of the given type; a silent no-op if
    /// it holds none. Only this entity's row changes.
    pub fn remove_component<T: Component>(&mut self)
        requires
            old(self).wf(),
        ensures
            final(self).wf(),
            Self::row_local(*old(self), *final(self)),
            EntitiesAndComponents::spec_some_component_removed(
                old(self).spec_store(),
                final(self).spec_store(),
                old(self).spec_entity(),
            ),
    {
        let k = key_of::<T>();
        let entity = self.entity;
        proof {
            self.store.lemma_valid_bounds(entity);
        }
        let _ = self.store.remove_component(entity, k);
        proof {
            assert(EntitiesAndComponents::spec_component_removed(
                old(self).spec_store(),
                self.spec_store(),
                entity,
                k,
            ));
        }
    }

    /// Removes the bound entity from the store. The cursor is spent: the
    /// handle is dead, so no operation's precondition can be met again.
    pub fn remove_entity(&mut self)
        requires
            old(self).wf(),
        ensures
            Self::row_local(*old(self), *final(self)),
            !final(self).spec_store().valid(final(self).spec_entity()),
            EntitiesAndComponents::spec_entity_removed(
                old(self).spec_store(),
                final(self).spec_store(),
                old(self).spec_entity(),
            ),
    {
        let entity = self.entity;
        proof {
            self.store.lemma_valid_bounds(entity);
        }
        self.store.remove_entity(entity);
    }
}

} // verus!
