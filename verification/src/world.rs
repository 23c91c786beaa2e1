//! The world: the store plus the registered systems, driven through a
//! three-phase tick.
//!
//! Each tick first drives every resource's `update` hook in insertion
//! order, then gives every system that wants it a prestep pass over the
//! thread-safety gated view, then walks a snapshot of the live entities
//! in chunks — handing each participating system a fresh single-entity
//! cursor per entity — and finally hands each system the whole store in
//! registration order. Phases two and three admit concurrent schedules
//! because the view's shared surface is read-only and the cursors are
//! row-local; this scheduler drives them in a fixed serial order, which
//! is one of the admitted schedules.

use vstd::prelude::*;
use crate::cursor::SingleMutEntity;
use crate::store::EntitiesAndComponents;
use crate::view::EntitiesAndComponentsThreadSafe;

verus! {

/// How many entities one chunk of the per-entity phase covers.
pub const CHUNK_SIZE: usize = 5;

/// Systems hold the user's logic and are driven by the world. A system
/// takes part in a phase by overriding the phase's method and answering
/// `true` from the matching probe.
pub trait System {
    /// Runs concurrently with other presteps over the shared view; may
    /// only read the store, but may update the system's own state.
    fn prestep(&mut self, engine: &EntitiesAndComponentsThreadSafe) {
    }

    /// Whether `prestep` should be called each tick.
    fn implements_prestep(&self) -> bool {
        false
    }

    /// Called once per live entity with a cursor bound to it; the cursor
    /// keeps the reach of this call inside that entity's row.
    fn single_entity_step(&self, single_entity: &mut SingleMutEntity)
        requires
            old(single_entity).wf(),
        ensures
            SingleMutEntity::row_local(*old(single_entity), *final(single_entity)),
    {
    }

    /// Whether `single_entity_step` should be called each tick.
    fn implements_single_entity_step(&self) -> bool {
        false
    }

    /// The serial phase: exclusive access to the whole store.
    fn run(&mut self, engine: &mut EntitiesAndComponents)
        requires
            old(engine).wf(),
        ensures
            final(engine).wf(),
    {
    }
}

/// A registered system with its concrete type erased.
#[verifier::external_body]
struct SystemBox {
    item: std::boxed::Box<dyn System + Send + Sync>,
}

/// Relies on `Box::new` and the unsizing coercion to `dyn System`: moves
/// the system onto the heap and erases its type.
#[verifier::external_body]
fn box_system<S: System + Send + Sync + 'static>(system: S) -> SystemBox {
    SystemBox { item: std::boxed::Box::new(system) }
}

/// Relies on dispatch through `dyn System`: asks the system whether it
/// takes part in the prestep phase.
#[verifier::external_body]
fn sys_implements_prestep(system: &SystemBox) -> bool {
    system.item.implements_prestep()
}

/// Relies on dispatch through `dyn System`: runs the system's prestep
/// over the shared view. The view is borrowed shared, so the store
/// cannot change; the system may only update its own state.
#[verifier::external_body]
fn sys_prestep(system: &mut SystemBox, engine: &EntitiesAndComponentsThreadSafe) {
    system.item.prestep(engine);
}

/// Relies on dispatch through `dyn System`: asks the system whether it
/// takes part in the per-entity phase.
#[verifier::external_body]
fn sys_implements_single_entity_step(system: &SystemBox) -> bool {
    system.item.implements_single_entity_step()
}

/// Relies on dispatch through `dyn System` and on the cursor's own
/// surface: whatever the system does, it reaches the store only through
/// the cursor's public operations, each of which is row-local, so the
/// call as a whole is row-local.
#[verifier::external_body]
fn sys_single_entity_step(system: &SystemBox, single_entity: &mut SingleMutEntity)
    requires
        old(single_entity).wf(),
    ensures
        SingleMutEntity::row_local(*old(single_entity), *final(single_entity)),
{
    system.item.single_entity_step(single_entity);
}

/// Relies on dispatch through `dyn System` and on the store's own
/// surface: the system reaches the store only through its public
/// operations, each of which keeps the store well-formed.
#[verifier::external_body]
fn sys_run(system: &mut SystemBox, engine: &mut EntitiesAndComponents)
    requires
        old(engine).wf(),
    ensures
        final(engine).wf(),
{
    system.item.run(engine);
}

/// The entity snapshot cut into chunks of `CHUNK_SIZE`, in order.
pub open spec fn entity_chunks(s: Seq<crate::Entity>) -> Seq<Seq<crate::Entity>>
    decreases s.len(),
{
    if s.len() == 0 {
        Seq::empty()
    } else if s.len() <= CHUNK_SIZE as int {
        seq![s]
    } else {
        seq![s.take(CHUNK_SIZE as int)] + entity_chunks(s.skip(CHUNK_SIZE as int))
    }
}

/// The chunking contract of the per-entity phase: flattened back
/// together, the chunks are exactly the snapshot — every entity appears
/// exactly once, in order, so any two chunks are disjoint and cursors
/// built from different chunks can never share a row.
pub proof fn lemma_chunks_cover(s: Seq<crate::Entity>)
    ensures
        entity_chunks(s).flatten() == s,
    decreases s.len(),
{
    if s.len() == 0 {
        assert(entity_chunks(s).flatten() =~= s);
    } else if s.len() <= CHUNK_SIZE as int {
        seq![s].lemma_flatten_one_element();
        assert(seq![s].flatten() =~= s);
    } else {
        lemma_chunks_cover(s.skip(CHUNK_SIZE as int));
        let head = s.take(CHUNK_SIZE as int);
        let rest = entity_chunks(s.skip(CHUNK_SIZE as int));
        let whole = seq![head] + rest;
        assert(entity_chunks(s) == whole);
        assert(whole.first() == head);
        assert(whole.drop_first() =~= rest);
        assert(whole.flatten() == head + rest.flatten());
        assert(head + s.skip(CHUNK_SIZE as int) =~= s);
        assert(entity_chunks(s).flatten() =~= s);
    }
}

/// The world: one store and the systems that run over it each tick.
pub struct World {
    /// The store of all entities, components and resources.
    pub entities_and_components: EntitiesAndComponents,
    systems: Vec<SystemBox>,
}

impl World {
    /// The world's store, as contracts speak of it; it is the same value
    /// as the public field.
    pub closed spec fn spec_store(self) -> EntitiesAndComponents {
        self.entities_and_components
    }

    /// How many systems are registered.
    pub closed spec fn spec_system_count(self) -> nat {
        self.systems@.len()
    }

    /// Creates a world with an empty store and no systems.
    pub fn new() -> (r: World)
        ensures
            r.spec_store().wf(),
            r.spec_store().live_handles() == Seq::<crate::Entity>::empty(),
            r.spec_store().resource_keys() == Seq::<u64>::empty(),
            r.spec_system_count() == 0,
    {
        World { entities_and_components: EntitiesAndComponents::new(), systems: Vec::new() }
    }

    /// Registers a system; systems run in registration order within each
    /// phase. The store is untouched.
    pub fn add_system<T: System + Send + Sync + 'static>(&mut self, system: T)
        ensures
            final(self).spec_store() == old(self).spec_store(),
            final(self).spec_system_count() == old(self).spec_system_count() + 1,
    {
        self.systems.push(box_system(system));
    }

    /// One tick: resources update in insertion order, then the prestep
    /// phase over the gated view, then the per-entity phase over a
    /// chunked snapshot of the live entities — a fresh cursor per entity
    /// and system, systems in registration order for a fixed entity —
    /// and finally every system's serial `run` in registration order.
    pub fn run(&mut self)
        requires
            old(self).spec_store().wf(),
        ensures
            final(self).spec_store().wf(),
            final(self).spec_system_count() == old(self).spec_system_count(),
            old(self).spec_system_count() == 0 ==> final(self).spec_store().same_entities(
                old(self).spec_store(),
            ) && final(self).spec_store().resource_keys() == old(
                self,
            ).spec_store().resource_keys(),
    {
        self.entities_and_components.update_resources();
        if self.systems.len() == 0 {
            return ;
        }
        let n = self.systems.len();

        // prestep phase: every system that wants it reads the store
        // through the view, one after the other; any interleaving would
        // observe the same store, since shared access cannot change it.
        let mut held = EntitiesAndComponents::new();
        core::mem::swap(&mut held, &mut self.entities_and_components);
        let view = EntitiesAndComponentsThreadSafe::new(held);
        let mut i: usize = 0;
        while i < n
            invariant
                n == self.systems@.len(),
                i <= n,
            decreases n - i,
        {
            if sys_implements_prestep(&self.systems[i]) {
                let sb = &mut self.systems[i];
                sys_prestep(sb, &view);
            }
            i = i + 1;
        }
        let mut back = view.into_inner();
        core::mem::swap(&mut back, &mut self.entities_and_components);

        // per-entity phase: probe each system once, snapshot the live
        // entities, and walk the snapshot chunk by chunk.
        let mut steppers: Vec<usize> = Vec::new();
        let mut i: usize = 0;
        while i < n
            invariant
                n == self.systems@.len(),
                i <= n,
                forall|j: int| 0 <= j < steppers@.len() ==> steppers@[j] < n,
            decreases n - i,
        {
            if sys_implements_single_entity_step(&self.systems[i]) {
                steppers.push(i);
            }
            i = i + 1;
        }
        if steppers.len() > 0 {
            let entities = self.entities_and_components.get_entities();
            let total = entities.len();
            let m = steppers.len();
            let mut start: usize = 0;
            while start < total
                invariant
                    self.entities_and_components.wf(),
                    n == self.systems@.len(),
                    m == steppers@.len(),
                    forall|j: int| 0 <= j < steppers@.len() ==> steppers@[j] < n,
                    total == entities@.len(),
                    start <= total,
                decreases total - start,
            {
                let stop = if total - start > CHUNK_SIZE {
                    start + CHUNK_SIZE
                } else {
                    total
                };
                let mut e = start;
                while e < stop
                    invariant
                        self.entities_and_components.wf(),
                        n == self.systems@.len(),
                        m == steppers@.len(),
                        forall|j: int| 0 <= j < steppers@.len() ==> steppers@[j] < n,
                        total == entities@.len(),
                        e <= stop <= total,
                    decreases stop - e,
                {
                    let h = entities[e];
                    let mut si: usize = 0;
                    while si < m
                        invariant
                            self.entities_and_components.wf(),
                            n == self.systems@.len(),
                            m == steppers@.len(),
                            forall|j: int| 0 <= j < steppers@.len() ==> steppers@[j] < n,
                            si <= m,
                        decreases m - si,
                    {
                        // a fresh cursor per entity and system; an entity
                        // that an earlier system removed is skipped.
                        if self.entities_and_components.is_valid(h) {
                            let mut taken = EntitiesAndComponents::new();
                            core::mem::swap(&mut taken, &mut self.entities_and_components);
                            let mut cursor = SingleMutEntity::new(taken, h);
                            let sysi = steppers[si];
                            sys_single_entity_step(&self.systems[sysi], &mut cursor);
                            let mut given = cursor.into_store();
                            core::mem::swap(&mut given, &mut self.entities_and_components);
                        }
                        si = si + 1;
                    }
                    e = e + 1;
                }
                start = stop;
            }
        }

        // serial phase: each system with the whole store, in order.
        let mut i: usize = 0;
        while i < n
            invariant
                n == self.systems@.len(),
                i <= n,
                self.entities_and_components.wf(),
            decreases n - i,
        {
            let sb = &mut self.systems[i];
            sys_run(sb, &mut self.entities_and_components);
            i = i + 1;
        }
    }
}

} // verus!
