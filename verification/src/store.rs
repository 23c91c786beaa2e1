//! The entity-component store: a generational slot table whose occupied
//! slots each own a bag of type-keyed components, plus a reverse index
//! from component key to the entities holding it, and a table of
//! process-wide resources.

use vstd::prelude::*;
use crate::Entity;
use crate::erased::Erased;
use crate::resource::ResourceCell;
use crate::resource::res_update;
use crate::table::Table;

verus! {

/// One slot of the entity table. A vacant slot keeps its generation so
/// that handles into its earlier lives can be told apart from any handle
/// into a later life.
pub(crate) struct Slot {
    pub(crate) generation: u64,
    pub(crate) occupied: bool,
    pub(crate) bag: Table<Erased>,
}

/// Handles of the occupied slots, in slot order.
pub(crate) open spec fn live_of(slots: Seq<Slot>) -> Seq<Entity>
    decreases slots.len(),
{
    if slots.len() == 0 {
        Seq::empty()
    } else {
        let rest = live_of(slots.drop_last());
        if slots.last().occupied {
            rest.push(
                Entity {
                    index: (slots.len() - 1) as usize,
                    generation: slots.last().generation,
                },
            )
        } else {
            rest
        }
    }
}

/// A handle is in `live_of` exactly when it matches an occupied slot.
pub(crate) proof fn lemma_live_of_membership(slots: Seq<Slot>, h: Entity)
    requires
        slots.len() <= usize::MAX,
    ensures
        live_of(slots).contains(h) <==> {
            &&& h.index < slots.len()
            &&& slots[h.index as int].occupied
            &&& slots[h.index as int].generation == h.generation
        },
    decreases slots.len(),
{
    if slots.len() > 0 {
        lemma_live_of_membership(slots.drop_last(), h);
        let rest = live_of(slots.drop_last());
        let lasth = Entity {
            index: (slots.len() - 1) as usize,
            generation: slots.last().generation,
        };
        if slots.last().occupied {
            assert(live_of(slots) == rest.push(lasth));
            if live_of(slots).contains(h) {
                let j = choose|j: int| 0 <= j < live_of(slots).len() && live_of(slots)[j] == h;
                if j < rest.len() {
                    assert(rest[j] == h);
                }
            }
            if rest.contains(h) {
                let j = choose|j: int| 0 <= j < rest.len() && rest[j] == h;
                assert(rest.push(lasth)[j] == h);
            }
            if h == lasth {
                assert(rest.push(lasth)[rest.len() as int] == h);
            }
        }
    }
}

/// There are never more live handles than slots.
pub(crate) proof fn lemma_live_of_len(slots: Seq<Slot>)
    ensures
        live_of(slots).len() <= slots.len(),
    decreases slots.len(),
{
    if slots.len() > 0 {
        lemma_live_of_len(slots.drop_last());
    }
}

/// With a vacant slot somewhere, strictly fewer live handles than slots.
pub(crate) proof fn lemma_live_of_len_strict(slots: Seq<Slot>, i: int)
    requires
        0 <= i < slots.len(),
        !slots[i].occupied,
    ensures
        live_of(slots).len() < slots.len(),
    decreases slots.len(),
{
    if i == slots.len() - 1 {
        lemma_live_of_len(slots.drop_last());
    } else {
        lemma_live_of_len_strict(slots.drop_last(), i);
    }
}

/// Live handles appear in strictly increasing slot order, so no handle
/// is ever listed twice.
pub(crate) proof fn lemma_live_of_sorted(slots: Seq<Slot>)
    requires
        slots.len() <= usize::MAX,
    ensures
        forall|j: int|
            0 <= j < live_of(slots).len() ==> (#[trigger] live_of(slots)[j]).index < slots.len(),
        forall|j1: int, j2: int|
            0 <= j1 < j2 < live_of(slots).len() ==> live_of(slots)[j1].index < live_of(
                slots,
            )[j2].index,
    decreases slots.len(),
{
    if slots.len() > 0 {
        lemma_live_of_sorted(slots.drop_last());
        let rest = live_of(slots.drop_last());
        assert forall|j: int|
            0 <= j < live_of(slots).len() implies (#[trigger] live_of(slots)[j]).index
            < slots.len() by {
            if j < rest.len() {
                assert(live_of(slots)[j] == rest[j]);
                assert(rest[j].index < slots.drop_last().len());
            }
        }
        assert forall|j1: int, j2: int|
            0 <= j1 < j2 < live_of(slots).len() implies live_of(slots)[j1].index < live_of(
            slots,
        )[j2].index by {
            assert(live_of(slots)[j1] == rest[j1]);
            assert(rest[j1].index < slots.drop_last().len());
            if j2 < rest.len() {
                assert(live_of(slots)[j2] == rest[j2]);
            }
        }
    }
}

/// `live_of` reads only occupancy and generation, never the bags.
pub(crate) proof fn lemma_live_of_agrees(s1: Seq<Slot>, s2: Seq<Slot>)
    requires
        s1.len() == s2.len(),
        forall|i: int|
            0 <= i < s1.len() ==> (#[trigger] s1[i]).occupied == s2[i].occupied
                && s1[i].generation == s2[i].generation,
    ensures
        live_of(s1) == live_of(s2),
    decreases s1.len(),
{
    if s1.len() > 0 {
        assert(forall|i: int|
            0 <= i < s1.drop_last().len() ==> (#[trigger] s1.drop_last()[i]).occupied
                == s2.drop_last()[i].occupied && s1.drop_last()[i].generation
                == s2.drop_last()[i].generation);
        lemma_live_of_agrees(s1.drop_last(), s2.drop_last());
    }
}

/// Occupying a vacant slot adds exactly that slot's handle to the live
/// handles; vacating an occupied one removes exactly its handle.
pub(crate) proof fn lemma_live_of_update(slots: Seq<Slot>, i: int, s2: Slot)
    requires
        slots.len() <= usize::MAX,
        0 <= i < slots.len(),
    ensures
        live_of(slots.update(i, s2)).len() == live_of(slots).len() + (
        if s2.occupied {
            1int
        } else {
            0int
        }) - (
        if slots[i].occupied {
            1int
        } else {
            0int
        }),
        forall|h: Entity|
            live_of(slots.update(i, s2)).contains(h) <==> {
                ||| (h.index != i && live_of(slots).contains(h))
                ||| (h.index == i && s2.occupied && h == Entity {
                    index: i as usize,
                    generation: s2.generation,
                })
            },
    decreases slots.len(),
{
    let slots2 = slots.update(i, s2);
    assert forall|h: Entity| live_of(slots2).contains(h) <==> {
        ||| (h.index != i && live_of(slots).contains(h))
        ||| (h.index == i && s2.occupied && h == Entity {
            index: i as usize,
            generation: s2.generation,
        })
    } by {
        lemma_live_of_membership(slots2, h);
        lemma_live_of_membership(slots, h);
    }
    if i == slots.len() - 1 {
        assert(slots2.drop_last() =~= slots.drop_last());
    } else {
        assert(slots2.drop_last() =~= slots.drop_last().update(i, s2));
        lemma_live_of_update(slots.drop_last(), i, s2);
    }
}

/// One key's reverse-index record after a purge: the handle sat at some
/// position of the old record, and the record is now exactly the old one
/// with that position removed.
pub(crate) open spec fn purged_record(
    pre: EntitiesAndComponents,
    idx: Table<Vec<Entity>>,
    k: u64,
    h: Entity,
) -> bool {
    exists|j: int|
        {
            &&& 0 <= j < pre.with_key(k).len()
            &&& pre.with_key(k)[j] == h
            &&& idx.view().contains_key(k)
            &&& idx.view()[k]@ == #[trigger] pre.with_key(k).remove(j)
        }
}

/// Removes one handle from a duplicate-free list, keeping the order of
/// the rest.
fn drop_handle(list: &mut Vec<Entity>, entity: Entity)
    requires
        forall|j1: int, j2: int|
            0 <= j1 < j2 < old(list)@.len() ==> old(list)@[j1] != old(list)@[j2],
    ensures
        forall|j1: int, j2: int|
            0 <= j1 < j2 < final(list)@.len() ==> final(list)@[j1] != final(list)@[j2],
        !final(list)@.contains(entity),
        forall|h2: Entity|
            h2 != entity ==> (final(list)@.contains(h2) <==> old(list)@.contains(h2)),
        old(list)@.contains(entity) ==> exists|j: int|
            {
                &&& 0 <= j < old(list)@.len()
                &&& old(list)@[j] == entity
                &&& final(list)@ == old(list)@.remove(j)
            },
        !old(list)@.contains(entity) ==> *final(list) == *old(list),
{
    let n = list.len();
    let mut i: usize = 0;
    while i < n
        invariant
            n == list@.len(),
            i <= n,
            *list == *old(list),
            forall|j1: int, j2: int|
                0 <= j1 < j2 < old(list)@.len() ==> old(list)@[j1] != old(list)@[j2],
            forall|j: int| 0 <= j < i ==> list@[j] != entity,
        decreases n - i,
    {
        if list[i].index == entity.index && list[i].generation == entity.generation {
            proof {
                assert(list@[i as int] == entity);
            }
            let ghost s = list@;
            proof {
                assert(forall|j1: int, j2: int| 0 <= j1 < j2 < s.len() ==> s[j1] != s[j2]);
            }
            list.remove(i);
            proof {
                s.remove_ensures(i as int);
                assert(list@ == s.remove(i as int));
                assert(exists|j: int|
                    {
                        &&& 0 <= j < s.len()
                        &&& s[j] == entity
                        &&& list@ == s.remove(j)
                    }) by {
                    assert(s[i as int] == entity && list@ == s.remove(i as int));
                }
                assert forall|h2: Entity| h2 != entity implies (list@.contains(h2)
                    <==> s.contains(h2)) by {
                    if list@.contains(h2) {
                        let j = choose|j: int| 0 <= j < list@.len() && list@[j] == h2;
                        if j < i {
                            assert(s[j] == h2);
                        } else {
                            assert(s[j + 1] == h2);
                        }
                    }
                    if s.contains(h2) {
                        let j = choose|j: int| 0 <= j < s.len() && s[j] == h2;
                        if j < i {
                            assert(list@[j] == h2);
                        } else if j > i {
                            assert(list@[j - 1] == h2);
                        }
                    }
                }
                assert(!list@.contains(entity)) by {
                    if list@.contains(entity) {
                        let j = choose|j: int| 0 <= j < list@.len() && list@[j] == entity;
                        if j < i {
                            assert(s[j] == entity);
                            assert(s[i as int] == entity);
                            assert(s[j] != s[i as int]);
                        } else {
                            assert(s[j + 1] == entity);
                            assert(s[i as int] == entity);
                            assert(s[i as int] != s[j + 1]);
                        }
                    }
                }
                assert forall|j1: int, j2: int|
                    0 <= j1 < j2 < list@.len() implies list@[j1] != list@[j2] by {
                    if j2 < i {
                        assert(list@[j1] == s[j1] && list@[j2] == s[j2]);
                        assert(s[j1] != s[j2]);
                    } else if j1 < i {
                        assert(list@[j1] == s[j1] && list@[j2] == s[j2 + 1]);
                        assert(s[j1] != s[j2 + 1]);
                    } else {
                        assert(list@[j1] == s[j1 + 1] && list@[j2] == s[j2 + 1]);
                        assert(s[j1 + 1] != s[j2 + 1]);
                    }
                }
            }
            return ;
        }
        i = i + 1;
    }
    proof {
        assert(!list@.contains(entity)) by {
            if list@.contains(entity) {
                let j = choose|j: int| 0 <= j < list@.len() && list@[j] == entity;
            }
        }
    }
}

/// A record in the reverse index: the key is known and its list names
/// the handle.
pub(crate) open spec fn indexed_under(idx: Table<Vec<Entity>>, k: u64, h: Entity) -> bool {
    &&& idx.view().contains_key(k)
    &&& idx.view()[k]@.contains(h)
}

/// Replacing a slot without touching its occupancy or generation leaves
/// the live handles as they were.
pub(crate) broadcast proof fn lemma_live_of_update_same(slots: Seq<Slot>, i: int, s2: Slot)
    requires
        slots.len() <= usize::MAX,
        0 <= i < slots.len(),
        s2.occupied == slots[i].occupied,
        s2.generation == slots[i].generation,
    ensures
        live_of(#[trigger] slots.update(i, s2)) == live_of(slots),
{
    lemma_live_of_agrees(slots, slots.update(i, s2));
}

/// Copies a list of handles.
fn copy_handles(list: &Vec<Entity>) -> (r: Vec<Entity>)
    ensures
        r@ == list@,
{
    let n = list.len();
    let mut out: Vec<Entity> = Vec::new();
    let mut i: usize = 0;
    while i < n
        invariant
            n == list@.len(),
            i <= n,
            out@ == list@.take(i as int),
        decreases n - i,
    {
        out.push(list[i]);
        proof {
            assert(out@ =~= list@.take(i as int + 1));
        }
        i = i + 1;
    }
    proof {
        assert(list@.take(n as int) =~= list@);
    }
    out
}

/// The store of all entities and their components, together with the
/// process-wide resources. This is the single source of truth that
/// handles point into.
pub struct EntitiesAndComponents {
    slots: Vec<Slot>,
    free: Vec<usize>,
    live_count: usize,
    index: Table<Vec<Entity>>,
    resources: Table<ResourceCell>,
}

impl EntitiesAndComponents {
    /// A handle is valid while the slot it points at is occupied and
    /// still carries the handle's generation.
    pub closed spec fn valid(self, h: Entity) -> bool {
        &&& h.index < self.slots@.len()
        &&& self.slots@[h.index as int].occupied
        &&& self.slots@[h.index as int].generation == h.generation
    }

    /// The components on an entity, as a map from type key to the stored
    /// erased value.
    pub closed spec fn bag(self, h: Entity) -> Map<u64, Erased> {
        self.slots@[h.index as int].bag.view()
    }

    /// The keys of the components on an entity, in insertion order; this
    /// is the per-entity type list that drives cleanup.
    pub closed spec fn key_list(self, h: Entity) -> Seq<u64> {
        self.slots@[h.index as int].bag.keys()
    }

    /// The entities the reverse index records for a key.
    pub closed spec fn with_key(self, k: u64) -> Seq<Entity> {
        if self.index.view().contains_key(k) {
            self.index.view()[k]@
        } else {
            Seq::empty()
        }
    }

    /// The generation a slot currently carries.
    pub closed spec fn slot_generation(self, i: int) -> u64 {
        self.slots@[i].generation
    }

    /// How many slots the table has grown to.
    pub closed spec fn slot_count(self) -> nat {
        self.slots@.len()
    }

    /// The live handles, in slot order.
    pub closed spec fn live_handles(self) -> Seq<Entity> {
        live_of(self.slots@)
    }

    /// The resource keys, in insertion order.
    pub closed spec fn resource_keys(self) -> Seq<u64> {
        self.resources.keys()
    }

    /// The resources, as a map from type key to the stored cell.
    pub closed spec fn resource_map(self) -> Map<u64, ResourceCell> {
        self.resources.view()
    }

    spec fn inv_free(self) -> bool {
        &&& forall|j: int|
            0 <= j < self.free@.len() ==> {
                &&& (#[trigger] self.free@[j]) < self.slots@.len()
                &&& !self.slots@[self.free@[j] as int].occupied
                &&& self.slots@[self.free@[j] as int].generation < u64::MAX
            }
        &&& forall|j1: int, j2: int|
            0 <= j1 < j2 < self.free@.len() ==> self.free@[j1] != self.free@[j2]
    }

    spec fn inv_slots(self) -> bool {
        &&& self.slots@.len() <= usize::MAX
        &&& forall|i: int|
            0 <= i < self.slots@.len() ==> {
                &&& (#[trigger] self.slots@[i]).bag.wf()
                &&& (self.slots@[i].occupied ==> self.slots@[i].generation < u64::MAX)
                &&& (!self.slots@[i].occupied ==> self.slots@[i].bag.view() == Map::<
                    u64,
                    Erased,
                >::empty() && self.slots@[i].bag.keys() == Seq::<u64>::empty())
            }
    }

    spec fn inv_count(self) -> bool {
        self.live_count == live_of(self.slots@).len()
    }

    spec fn inv_index_sound(self) -> bool {
        &&& self.index.wf()
        &&& forall|k: u64, j: int|
            self.index.view().contains_key(k) && 0 <= j < self.index.view()[k]@.len() ==> {
                &&& self.valid(#[trigger] self.index.view()[k]@[j])
                &&& self.bag(self.index.view()[k]@[j]).contains_key(k)
            }
        &&& forall|k: u64, j1: int, j2: int|
            self.index.view().contains_key(k) && 0 <= j1 < j2 < self.index.view()[k]@.len()
                ==> #[trigger] self.index.view()[k]@[j1] != #[trigger] self.index.view()[k]@[j2]
    }

    spec fn inv_index_complete(self) -> bool {
        forall|h: Entity, k: u64|
            #![trigger self.bag(h).contains_key(k)]
            #![trigger indexed_under(self.index, k, h)]
            self.valid(h) && self.bag(h).contains_key(k) ==> indexed_under(self.index, k, h)
    }

    spec fn inv_resources(self) -> bool {
        self.resources.wf()
    }

    /// The store's well-formedness: the free list points at reusable
    /// vacant slots, vacant slots hold nothing, the live count is right,
    /// and the reverse index and the bags agree in both directions.
    pub closed spec fn wf(self) -> bool {
        &&& self.inv_free()
        &&& self.inv_slots()
        &&& self.inv_count()
        &&& self.inv_index_sound()
        &&& self.inv_index_complete()
        &&& self.inv_resources()
    }

    /// Two stores hold the same entities and components: the same
    /// handles are valid, with the same bags, and the reverse index
    /// answers alike.
    pub open spec fn same_entities(self, other: Self) -> bool {
        &&& forall|h: Entity| self.valid(h) == other.valid(h)
        &&& forall|h: Entity| self.valid(h) ==> self.bag(h) == other.bag(h)
        &&& forall|h: Entity| self.valid(h) ==> self.key_list(h) == other.key_list(h)
        &&& forall|k: u64| self.with_key(k) == other.with_key(k)
        &&& self.live_handles() == other.live_handles()
        &&& self.slot_count() == other.slot_count()
        &&& forall|i: int| 0 <= i < self.slot_count() ==> self.slot_generation(i)
            == other.slot_generation(i)
    }

    /// Two stores hold the same resources.
    pub open spec fn same_resources(self, other: Self) -> bool {
        &&& self.resource_keys() == other.resource_keys()
        &&& self.resource_map() == other.resource_map()
    }

    /// Creates an empty store.
    pub fn new() -> (r: Self)
        ensures
            r.wf(),
            r.live_handles() == Seq::<Entity>::empty(),
            forall|h: Entity| !r.valid(h),
            forall|k: u64| r.with_key(k) == Seq::<Entity>::empty(),
            r.resource_keys() == Seq::<u64>::empty(),
    {
        let r = EntitiesAndComponents {
            slots: Vec::new(),
            free: Vec::new(),
            live_count: 0,
            index: Table::new(),
            resources: Table::new(),
        };
        r
    }

    /// Whether a handle is still valid: its slot is occupied and carries
    /// the handle's generation. Stale handles always answer `false`.
    pub fn is_valid(&self, entity: Entity) -> (r: bool)
        ensures
            r == self.valid(entity),
    {
        entity.index < self.slots.len() && self.slots[entity.index].occupied
            && self.slots[entity.index].generation == entity.generation
    }

    /// The number of live entities.
    pub fn get_entity_count(&self) -> (r: usize)
        requires
            self.wf(),
        ensures
            r == self.live_handles().len(),
    {
        self.live_count
    }

    /// What adding an empty entity changes: the new handle is valid and
    /// empty, was not valid before, and everything else is untouched.
    pub open spec fn spec_entity_added(pre: Self, post: Self, h: Entity) -> bool {
        &&& post.valid(h)
        &&& !pre.valid(h)
        &&& post.bag(h) == Map::<u64, Erased>::empty()
        &&& post.key_list(h) == Seq::<u64>::empty()
        &&& forall|h2: Entity| h2 != h ==> post.valid(h2) == pre.valid(h2)
        &&& forall|h2: Entity|
            pre.valid(h2) ==> post.bag(h2) == pre.bag(h2) && post.key_list(h2) == pre.key_list(h2)
        &&& forall|k: u64| post.with_key(k) == pre.with_key(k)
        &&& post.live_handles().len() == pre.live_handles().len() + 1
        &&& forall|h2: Entity|
            post.live_handles().contains(h2) <==> (pre.live_handles().contains(h2) || h2 == h)
        &&& forall|i: int|
            0 <= i < pre.slot_count() ==> post.slot_generation(i) == pre.slot_generation(i)
        &&& pre.slot_count() <= post.slot_count()
        &&& post.same_resources(pre)
    }

    /// What removing an entity changes: the handle is dead, purged from
    /// the whole reverse index, its slot's generation has grown, and
    /// everything else is untouched.
    pub open spec fn spec_entity_removed(pre: Self, post: Self, h: Entity) -> bool {
        &&& !post.valid(h)
        &&& forall|k: u64| !post.with_key(k).contains(h)
        &&& forall|h2: Entity| h2 != h ==> post.valid(h2) == pre.valid(h2)
        &&& forall|h2: Entity|
            h2 != h && pre.valid(h2) ==> post.bag(h2) == pre.bag(h2) && post.key_list(h2)
                == pre.key_list(h2)
        &&& forall|k: u64, h2: Entity|
            h2 != h ==> (post.with_key(k).contains(h2) <==> pre.with_key(k).contains(h2))
        &&& forall|k: u64|
            #![trigger post.with_key(k)]
            pre.with_key(k).contains(h) ==> exists|j: int|
                {
                    &&& 0 <= j < pre.with_key(k).len()
                    &&& pre.with_key(k)[j] == h
                    &&& post.with_key(k) == pre.with_key(k).remove(j)
                }
        &&& forall|k: u64|
            #![trigger post.with_key(k)]
            !pre.with_key(k).contains(h) ==> post.with_key(k) == pre.with_key(k)
        &&& post.live_handles().len() == pre.live_handles().len() - 1
        &&& forall|h2: Entity|
            post.live_handles().contains(h2) <==> (pre.live_handles().contains(h2) && h2 != h)
        &&& post.slot_count() == pre.slot_count()
        &&& post.slot_generation(h.spec_index() as int) > h.spec_generation()
        &&& forall|i: int|
            0 <= i < pre.slot_count() && i != h.spec_index() ==> post.slot_generation(i)
                == pre.slot_generation(i)
        &&& post.same_resources(pre)
    }

    /// What storing a component changes: the entity's bag maps the key to
    /// the value, the type list gains the key only if it was absent, the
    /// reverse index records the entity under the key, and everything
    /// else is untouched.
    pub open spec fn spec_component_added(
        pre: Self,
        post: Self,
        h: Entity,
        key: u64,
        value: Erased,
    ) -> bool {
        &&& post.bag(h) == pre.bag(h).insert(key, value)
        &&& post.key_list(h) == if pre.bag(h).contains_key(key) {
            pre.key_list(h)
        } else {
            pre.key_list(h).push(key)
        }
        &&& forall|h2: Entity| post.valid(h2) == pre.valid(h2)
        &&& forall|h2: Entity|
            h2 != h && pre.valid(h2) ==> post.bag(h2) == pre.bag(h2) && post.key_list(h2)
                == pre.key_list(h2)
        &&& post.with_key(key) == if pre.bag(h).contains_key(key) {
            pre.with_key(key)
        } else {
            pre.with_key(key).push(h)
        }
        &&& post.with_key(key).contains(h)
        &&& forall|h2: Entity|
            h2 != h ==> (post.with_key(key).contains(h2) <==> pre.with_key(key).contains(h2))
        &&& forall|k2: u64| k2 != key ==> post.with_key(k2) == pre.with_key(k2)
        &&& post.live_handles() == pre.live_handles()
        &&& post.slot_count() == pre.slot_count()
        &&& forall|i: int|
            0 <= i < pre.slot_count() ==> post.slot_generation(i) == pre.slot_generation(i)
        &&& post.same_resources(pre)
    }

    /// What removing a component changes: the key leaves the entity's bag
    /// and type list and its reverse-index record, and everything else is
    /// untouched.
    pub open spec fn spec_component_removed(pre: Self, post: Self, h: Entity, key: u64) -> bool {
        &&& post.bag(h) == pre.bag(h).remove(key)
        &&& !post.key_list(h).contains(key)
        &&& if pre.bag(h).contains_key(key) {
            exists|j: int|
                {
                    &&& 0 <= j < pre.key_list(h).len()
                    &&& pre.key_list(h)[j] == key
                    &&& post.key_list(h) == pre.key_list(h).remove(j)
                }
        } else {
            post.key_list(h) == pre.key_list(h)
        }
        &&& forall|k2: u64|
            k2 != key ==> (post.key_list(h).contains(k2) == pre.key_list(h).contains(k2))
        &&& forall|h2: Entity| post.valid(h2) == pre.valid(h2)
        &&& forall|h2: Entity|
            h2 != h && pre.valid(h2) ==> post.bag(h2) == pre.bag(h2) && post.key_list(h2)
                == pre.key_list(h2)
        &&& if pre.bag(h).contains_key(key) {
            exists|j: int|
                {
                    &&& 0 <= j < pre.with_key(key).len()
                    &&& pre.with_key(key)[j] == h
                    &&& post.with_key(key) == pre.with_key(key).remove(j)
                }
        } else {
            post.with_key(key) == pre.with_key(key)
        }
        &&& !post.with_key(key).contains(h)
        &&& forall|h2: Entity|
            h2 != h ==> (post.with_key(key).contains(h2) <==> pre.with_key(key).contains(h2))
        &&& forall|k2: u64| k2 != key ==> post.with_key(k2) == pre.with_key(k2)
        &&& post.live_handles() == pre.live_handles()
        &&& post.slot_count() == pre.slot_count()
        &&& forall|i: int|
            0 <= i < pre.slot_count() ==> post.slot_generation(i) == pre.slot_generation(i)
        &&& post.same_resources(pre)
    }

    /// Some component went onto the entity: the change of
    /// `spec_component_added`, with the key and value left unnamed, as
    /// the type-keyed face states it.
    pub open spec fn spec_some_component_added(pre: Self, post: Self, h: Entity) -> bool {
        exists|k: u64, e: Erased| Self::spec_component_added(pre, post, h, k, e)
    }

    /// Some component left the entity (or a no-op removal happened): the
    /// change of `spec_component_removed` with the key left unnamed.
    pub open spec fn spec_some_component_removed(pre: Self, post: Self, h: Entity) -> bool {
        exists|k: u64| Self::spec_component_removed(pre, post, h, k)
    }

    /// Adds an empty entity and hands back its handle. The handle is
    /// fresh: it differs from every handle that was valid before.
    pub fn add_entity(&mut self) -> (h: Entity)
        requires
            old(self).wf(),
        ensures
            final(self).wf(),
            Self::spec_entity_added(*old(self), *final(self), h),
            final(self).valid(h),
            !old(self).valid(h),
            final(self).bag(h) == Map::<u64, Erased>::empty(),
            final(self).key_list(h) == Seq::<u64>::empty(),
            forall|h2: Entity| h2 != h ==> final(self).valid(h2) == old(self).valid(h2),
            forall|h2: Entity|
                old(self).valid(h2) ==> final(self).bag(h2) == old(self).bag(h2)
                    && final(self).key_list(h2) == old(self).key_list(h2),
            forall|k: u64| final(self).with_key(k) == old(self).with_key(k),
            final(self).live_handles().len() == old(self).live_handles().len() + 1,
            forall|h2: Entity|
                final(self).live_handles().contains(h2) <==> (old(self).live_handles().contains(h2)
                    || h2 == h),
            forall|i: int|
                0 <= i < old(self).slot_count() ==> final(self).slot_generation(i)
                    == old(self).slot_generation(i),
            old(self).slot_count() <= final(self).slot_count(),
            final(self).same_resources(*old(self)),
    {
        proof {
            lemma_live_of_len(self.slots@);
        }
        let h: Entity;
        match self.free.pop() {
            Some(i) => {
                proof {
                    lemma_live_of_len_strict(self.slots@, i as int);
                    lemma_live_of_membership(self.slots@, Entity {
                        index: i,
                        generation: self.slots@[i as int].generation,
                    });
                    lemma_live_of_update(self.slots@, i as int, Slot {
                        generation: self.slots@[i as int].generation,
                        occupied: true,
                        bag: self.slots@[i as int].bag,
                    });
                }
                let generation = self.slots[i].generation;
                let slot = &mut self.slots[i];
                slot.occupied = true;
                h = Entity { index: i, generation };
            },
            None => {
                let i = self.slots.len();
                let generation: u64 = 0;
                self.slots.push(Slot { generation, occupied: true, bag: Table::new() });
                let n = self.slots.len();
                proof {
                    assert(self.slots@.len() == n);
                    assert(self.slots@.drop_last() =~= old(self).slots@);
                }
                h = Entity { index: i, generation };
            },
        }
        self.live_count = self.live_count + 1;
        proof {
            assert forall|h2: Entity|
                self.live_handles().contains(h2) <==> (old(self).live_handles().contains(h2)
                    || h2 == h) by {
                lemma_live_of_membership(self.slots@, h2);
                lemma_live_of_membership(old(self).slots@, h2);
            }
            assert forall|h2: Entity, k: u64|
                self.valid(h2) && #[trigger] self.bag(h2).contains_key(k) implies self.with_key(
                k,
            ).contains(h2) by {
                if h2 != h {
                    assert(old(self).valid(h2));
                    assert(old(self).bag(h2).contains_key(k));
                    assert(old(self).with_key(k).contains(h2));
                    assert(self.with_key(k) == old(self).with_key(k));
                }
            }
        }
        h
    }

    /// Removes an entity: every reverse-index record of it is purged
    /// first, then its bag is dropped and the slot's generation is
    /// bumped, so the old handle can never look valid again. A slot
    /// whose generation would reach its ceiling is retired, never
    /// reused.
    pub fn remove_entity(&mut self, entity: Entity)
        requires
            old(self).wf(),
            old(self).valid(entity),
        ensures
            final(self).wf(),
            Self::spec_entity_removed(*old(self), *final(self), entity),
            !final(self).valid(entity),
            forall|k: u64| !final(self).with_key(k).contains(entity),
            forall|h2: Entity| h2 != entity ==> final(self).valid(h2) == old(self).valid(h2),
            forall|h2: Entity|
                h2 != entity && old(self).valid(h2) ==> final(self).bag(h2) == old(self).bag(h2)
                    && final(self).key_list(h2) == old(self).key_list(h2),
            forall|k: u64, h2: Entity|
                h2 != entity ==> (final(self).with_key(k).contains(h2)
                    <==> old(self).with_key(k).contains(h2)),
            final(self).live_handles().len() == old(self).live_handles().len() - 1,
            forall|h2: Entity|
                final(self).live_handles().contains(h2) <==> (old(self).live_handles().contains(h2)
                    && h2 != entity),
            final(self).slot_count() == old(self).slot_count(),
            final(self).slot_generation(entity.spec_index() as int) > entity.spec_generation(),
            forall|i: int|
                0 <= i < old(self).slot_count() && i != entity.spec_index()
                    ==> final(self).slot_generation(i) == old(self).slot_generation(i),
            final(self).same_resources(*old(self)),
    {
        let nkeys = self.slots[entity.index].bag.len();
        let ghost keys0 = self.slots@[entity.index as int].bag.keys();
        proof {
            self.slots@[entity.index as int].bag.lemma_keys_nodup();
        }
        let mut ki: usize = 0;
        while ki < nkeys
            invariant
                old(self).wf(),
                old(self).valid(entity),
                ki <= nkeys,
                nkeys == keys0.len(),
                keys0 == old(self).key_list(entity),
                self.slots == old(self).slots,
                self.free == old(self).free,
                self.live_count == old(self).live_count,
                self.resources == old(self).resources,
                self.index.wf(),
                forall|k: u64|
                    self.index.view().contains_key(k) == old(self).index.view().contains_key(k),
                forall|k: u64, h2: Entity|
                    h2 != entity ==> (self.with_key(k).contains(h2)
                        <==> old(self).with_key(k).contains(h2)),
                forall|k: u64, j: int|
                    self.index.view().contains_key(k) && 0 <= j < self.index.view()[k]@.len()
                        ==> old(self).valid(#[trigger] self.index.view()[k]@[j]) && old(self).bag(
                        self.index.view()[k]@[j],
                    ).contains_key(k),
                forall|k: u64, j1: int, j2: int|
                    self.index.view().contains_key(k) && 0 <= j1 < j2 < self.index.view()[k]@.len()
                        ==> #[trigger] self.index.view()[k]@[j1] != #[trigger] self.index.view()[k]@[j2],
                forall|j: int|
                    0 <= j < ki && self.index.view().contains_key(keys0[j])
                        ==> !(#[trigger] self.index.view()[keys0[j]])@.contains(entity),
                forall|j1: int, j2: int| 0 <= j1 < j2 < keys0.len() ==> keys0[j1] != keys0[j2],
                forall|j: int|
                    0 <= j < ki ==> purged_record(*old(self), self.index, #[trigger] keys0[j], entity),
                forall|k: u64|
                    !keys0.take(ki as int).contains(k) && self.index.view().contains_key(k)
                        ==> #[trigger] self.index.view()[k] == old(self).index.view()[k],
            decreases nkeys - ki,
        {
            let ghost idx0 = self.index;
            let k = self.slots[entity.index].bag.key_at(ki);
            proof {
                self.slots@[entity.index as int].bag.lemma_keys_dom();
                assert(keys0[ki as int] == k);
                assert(self.slots@[entity.index as int].bag.keys().contains(k)) by {
                    assert(self.slots@[entity.index as int].bag.keys()[ki as int] == k);
                }
                assert(old(self).bag(entity).contains_key(k));
                assert(old(self).with_key(k).contains(entity));
                assert(old(self).index.view().contains_key(k));
                assert(self.index.view().contains_key(k));
                assert(!keys0.take(ki as int).contains(k)) by {
                    if keys0.take(ki as int).contains(k) {
                        let j = choose|j: int|
                            0 <= j < keys0.take(ki as int).len() && keys0.take(ki as int)[j] == k;
                        assert(keys0[j] == keys0[ki as int]);
                    }
                }
                assert(self.index.view()[k] == old(self).index.view()[k]);
                assert(self.with_key(k) == old(self).with_key(k));
            }
            let list = self.index.get_mut(k);
            drop_handle(list, entity);
            proof {
                let newlist = self.index.view()[k];
                assert(self.index.view() == idx0.view().insert(k, newlist));
                assert forall|k2: u64, h2: Entity| h2 != entity implies (self.with_key(
                    k2,
                ).contains(h2) <==> old(self).with_key(k2).contains(h2)) by {
                    if k2 == k {
                        assert(self.with_key(k2) == newlist@);
                        assert(newlist@.contains(h2) <==> idx0.view()[k2]@.contains(h2));
                    } else {
                        if self.index.view().contains_key(k2) {
                            assert(self.index.view()[k2] == idx0.view()[k2]);
                        }
                    }
                }
                assert forall|k2: u64, j: int|
                    self.index.view().contains_key(k2) && 0 <= j
                        < self.index.view()[k2]@.len() implies old(self).valid(
                    #[trigger] self.index.view()[k2]@[j],
                ) && old(self).bag(self.index.view()[k2]@[j]).contains_key(k2) by {
                    let h2 = self.index.view()[k2]@[j];
                    if k2 == k {
                        assert(newlist@[j] == h2);
                        assert(newlist@.contains(h2)) by {
                            assert(newlist@[j] == h2);
                        }
                        assert(h2 != entity);
                        assert(idx0.view()[k2]@.contains(h2));
                        let j2 = choose|j2: int|
                            0 <= j2 < idx0.view()[k2]@.len() && idx0.view()[k2]@[j2] == h2;
                        assert(idx0.view()[k2]@[j2] == h2);
                    } else {
                        assert(self.index.view()[k2] == idx0.view()[k2]);
                    }
                }
                assert forall|k2: u64, j1: int, j2: int|
                    self.index.view().contains_key(k2) && 0 <= j1 < j2
                        < self.index.view()[k2]@.len() implies #[trigger] self.index.view()[k2]@[j1]
                    != #[trigger] self.index.view()[k2]@[j2] by {
                    if k2 != k {
                        assert(self.index.view()[k2] == idx0.view()[k2]);
                    }
                }
                assert forall|j: int|
                    0 <= j < ki + 1 && self.index.view().contains_key(keys0[j]) implies !(
                #[trigger] self.index.view()[keys0[j]])@.contains(entity) by {
                    if keys0[j] == k {
                        assert(!newlist@.contains(entity));
                    } else {
                        assert(self.index.view()[keys0[j]] == idx0.view()[keys0[j]]);
                        assert(j < ki);
                    }
                }
                assert forall|j: int|
                    0 <= j < ki + 1 implies purged_record(
                    *old(self),
                    self.index,
                    #[trigger] keys0[j],
                    entity,
                ) by {
                    if keys0[j] == k {
                        assert(idx0.view()[k]@ == old(self).with_key(k));
                        let j2 = choose|j2: int|
                            {
                                &&& 0 <= j2 < idx0.view()[k]@.len()
                                &&& idx0.view()[k]@[j2] == entity
                                &&& newlist@ == idx0.view()[k]@.remove(j2)
                            };
                        assert(old(self).with_key(k)[j2] == entity);
                        assert(self.index.view()[keys0[j]]@ == old(self).with_key(k).remove(j2));
                    } else {
                        assert(j < ki);
                        assert(purged_record(*old(self), idx0, keys0[j], entity));
                        let j2 = choose|j2: int|
                            {
                                &&& 0 <= j2 < old(self).with_key(keys0[j]).len()
                                &&& old(self).with_key(keys0[j])[j2] == entity
                                &&& idx0.view().contains_key(keys0[j])
                                &&& idx0.view()[keys0[j]]@ == old(self).with_key(keys0[j]).remove(
                                    j2,
                                )
                            };
                        assert(self.index.view()[keys0[j]] == idx0.view()[keys0[j]]);
                        assert(self.index.view()[keys0[j]]@ == old(self).with_key(keys0[j]).remove(
                            j2,
                        ));
                    }
                }
                assert forall|k2: u64|
                    !keys0.take(ki as int + 1).contains(k2) && self.index.view().contains_key(
                        k2,
                    ) implies #[trigger] self.index.view()[k2] == old(self).index.view()[k2] by {
                    assert(k2 != k) by {
                        assert(keys0.take(ki as int + 1)[ki as int] == k);
                    }
                    assert(!keys0.take(ki as int).contains(k2)) by {
                        if keys0.take(ki as int).contains(k2) {
                            let j = choose|j: int|
                                0 <= j < keys0.take(ki as int).len() && keys0.take(ki as int)[j]
                                    == k2;
                            assert(keys0.take(ki as int + 1)[j] == k2);
                        }
                    }
                    assert(self.index.view()[k2] == idx0.view()[k2]);
                    assert(idx0.view()[k2] == old(self).index.view()[k2]);
                }
            }
            ki = ki + 1;
        }
        let ghost idxend = self.index;
        proof {
            self.slots@[entity.index as int].bag.lemma_keys_dom();
            assert forall|k: u64|
                idxend.view().contains_key(k) implies !idxend.view()[k]@.contains(entity) by {
                if idxend.view()[k]@.contains(entity) {
                    let j = choose|j: int|
                        0 <= j < idxend.view()[k]@.len() && idxend.view()[k]@[j] == entity;
                    assert(old(self).bag(entity).contains_key(k));
                    assert(self.slots@[entity.index as int].bag.keys().contains(k));
                    let j2 = choose|j2: int| 0 <= j2 < keys0.len() && keys0[j2] == k;
                    assert(!idxend.view()[keys0[j2]]@.contains(entity));
                }
            }
            lemma_live_of_membership(self.slots@, entity);
        }
        let generation = self.slots[entity.index].generation;
        let slot = &mut self.slots[entity.index];
        slot.occupied = false;
        slot.generation = generation + 1;
        slot.bag = Table::new();
        proof {
            lemma_live_of_update(
                old(self).slots@,
                entity.index as int,
                self.slots@[entity.index as int],
            );
        }
        if generation + 1 < u64::MAX {
            proof {
                assert forall|j: int| 0 <= j < self.free@.len() implies self.free@[j]
                    != entity.index by {
                    assert(old(self).slots@[self.free@[j] as int].occupied == false);
                }
            }
            self.free.push(entity.index);
        }
        self.live_count = self.live_count - 1;
        proof {
            assert forall|h2: Entity|
                self.live_handles().contains(h2) <==> (old(self).live_handles().contains(h2) && h2
                    != entity) by {
                lemma_live_of_membership(self.slots@, h2);
                lemma_live_of_membership(old(self).slots@, h2);
            }
            assert forall|k: u64, j: int|
                self.index.view().contains_key(k) && 0 <= j < self.index.view()[k]@.len() implies {
                &&& self.valid(#[trigger] self.index.view()[k]@[j])
                &&& self.bag(self.index.view()[k]@[j]).contains_key(k)
            } by {
                let h2 = self.index.view()[k]@[j];
                assert(self.with_key(k).contains(h2));
                assert(h2 != entity);
                assert(old(self).with_key(k).contains(h2));
                let j2 = choose|j2: int|
                    0 <= j2 < old(self).with_key(k).len() && old(self).with_key(k)[j2] == h2;
                assert(old(self).valid(h2));
                assert(h2.index != entity.index);
            }
            assert forall|h2: Entity, k: u64|
                self.valid(h2) && #[trigger] self.bag(h2).contains_key(k) implies self.with_key(
                k,
            ).contains(h2) by {
                assert(h2 != entity && h2.index != entity.index);
                assert(old(self).valid(h2));
                assert(old(self).bag(h2).contains_key(k));
                assert(old(self).with_key(k).contains(h2));
            }
        }
    }

    /// Stores a component on an entity under a key, overwriting and
    /// dropping any earlier value under the same key; the type list gains
    /// the key only if it was absent, and the reverse index records the
    /// entity under the key.
    pub fn add_component(&mut self, entity: Entity, key: u64, value: Erased)
        requires
            old(self).wf(),
            old(self).valid(entity),
        ensures
            final(self).wf(),
            Self::spec_component_added(*old(self), *final(self), entity, key, value),
            final(self).bag(entity) == old(self).bag(entity).insert(key, value),
            final(self).key_list(entity) == if old(self).bag(entity).contains_key(key) {
                old(self).key_list(entity)
            } else {
                old(self).key_list(entity).push(key)
            },
            forall|h2: Entity| final(self).valid(h2) == old(self).valid(h2),
            forall|h2: Entity|
                h2 != entity && old(self).valid(h2) ==> final(self).bag(h2) == old(self).bag(h2)
                    && final(self).key_list(h2) == old(self).key_list(h2),
            final(self).with_key(key).contains(entity),
            forall|h2: Entity|
                h2 != entity ==> (final(self).with_key(key).contains(h2)
                    <==> old(self).with_key(key).contains(h2)),
            forall|k2: u64| k2 != key ==> final(self).with_key(k2) == old(self).with_key(k2),
            final(self).live_handles() == old(self).live_handles(),
            final(self).slot_count() == old(self).slot_count(),
            forall|i: int|
                0 <= i < old(self).slot_count() ==> final(self).slot_generation(i) == old(
                    self,
                ).slot_generation(i),
            final(self).same_resources(*old(self)),
    {
        let had = self.slots[entity.index].bag.contains(key);
        let slot = &mut self.slots[entity.index];
        slot.bag.put(key, value);
        proof {
            lemma_live_of_agrees(old(self).slots@, self.slots@);
        }
        if !had {
            let ghost idx0 = self.index;
            let mut fresh = false;
            if self.index.contains(key) {
                proof {
                    assert(!idx0.view()[key]@.contains(entity)) by {
                        if idx0.view()[key]@.contains(entity) {
                            let j = choose|j: int|
                                0 <= j < idx0.view()[key]@.len() && idx0.view()[key]@[j] == entity;
                            assert(old(self).bag(entity).contains_key(key));
                        }
                    }
                }
                let list = self.index.get_mut(key);
                list.push(entity);
                proof {
                    assert(self.index.view()[key]@ == idx0.view()[key]@.push(entity));
                }
            } else {
                let mut started: Vec<Entity> = Vec::new();
                started.push(entity);
                self.index.put(key, started);
                fresh = true;
            }
            proof {
                let newlist = self.index.view()[key];
                assert(self.index.view() == idx0.view().insert(key, newlist));
                assert(newlist@.contains(entity)) by {
                    assert(newlist@[newlist@.len() - 1] == entity);
                }
                assert forall|h2: Entity|
                    h2 != entity implies (self.with_key(key).contains(h2) <==> old(
                    self,
                ).with_key(key).contains(h2)) by {
                    if !fresh {
                        assert forall|h3: Entity|
                            h3 != entity implies (newlist@.contains(h3)
                            <==> idx0.view()[key]@.contains(h3)) by {
                            if newlist@.contains(h3) {
                                let j = choose|j: int|
                                    0 <= j < newlist@.len() && newlist@[j] == h3;
                                assert(j < newlist@.len() - 1);
                                assert(idx0.view()[key]@[j] == h3);
                            }
                            if idx0.view()[key]@.contains(h3) {
                                let j = choose|j: int|
                                    0 <= j < idx0.view()[key]@.len() && idx0.view()[key]@[j] == h3;
                                assert(newlist@[j] == h3);
                            }
                        }
                    } else {
                        if self.with_key(key).contains(h2) {
                            let j = choose|j: int|
                                0 <= j < newlist@.len() && newlist@[j] == h2;
                        }
                    }
                }
                assert forall|k2: u64| k2 != key implies self.with_key(k2) == old(self).with_key(
                    k2,
                ) by {
                    if self.index.view().contains_key(k2) {
                        assert(self.index.view()[k2] == idx0.view()[k2]);
                    }
                }
                assert forall|k2: u64, j: int|
                    self.index.view().contains_key(k2) && 0 <= j
                        < self.index.view()[k2]@.len() implies {
                    &&& self.valid(#[trigger] self.index.view()[k2]@[j])
                    &&& self.bag(self.index.view()[k2]@[j]).contains_key(k2)
                } by {
                    let h2 = self.index.view()[k2]@[j];
                    if k2 == key && j == newlist@.len() - 1 {
                        assert(h2 == entity);
                    } else {
                        assert(idx0.view().contains_key(k2) && idx0.view()[k2]@[j] == h2);
                        assert(old(self).valid(h2) && old(self).bag(h2).contains_key(k2));
                        if h2 == entity {
                            assert(self.bag(entity).contains_key(k2));
                        }
                    }
                }
                assert forall|k2: u64, j1: int, j2: int|
                    self.index.view().contains_key(k2) && 0 <= j1 < j2
                        < self.index.view()[k2]@.len() implies #[trigger] self.index.view()[k2]@[j1] != #[trigger] self.index.view()[k2]@[j2] by {
                    if k2 == key {
                        if j2 == newlist@.len() - 1 && !fresh {
                            assert(newlist@[j1] == idx0.view()[key]@[j1]);
                            assert(idx0.view()[key]@.contains(newlist@[j1])) by {
                                assert(idx0.view()[key]@[j1] == newlist@[j1]);
                            }
                            assert(newlist@[j1] != entity);
                        }
                    } else {
                        assert(self.index.view()[k2] == idx0.view()[k2]);
                    }
                }
                assert forall|h2: Entity, k2: u64|
                    self.valid(h2) && #[trigger] self.bag(h2).contains_key(k2) implies self.with_key(
                    k2,
                ).contains(h2) by {
                    if h2 == entity && k2 == key {
                    } else {
                        assert(old(self).valid(h2));
                        assert(old(self).bag(h2).contains_key(k2));
                        assert(old(self).with_key(k2).contains(h2));
                        if k2 == key {
                            let j = choose|j: int|
                                0 <= j < idx0.view()[key]@.len() && idx0.view()[key]@[j] == h2;
                            assert(newlist@[j] == h2);
                        }
                    }
                }
            }
        } else {
            proof {
                assert(old(self).bag(entity).contains_key(key));
                assert(old(self).with_key(key).contains(entity));
                assert forall|h2: Entity, k2: u64|
                    self.valid(h2) && #[trigger] self.bag(h2).contains_key(k2) implies self.with_key(
                    k2,
                ).contains(h2) by {
                    assert(old(self).valid(h2));
                    assert(old(self).bag(h2).contains_key(k2));
                }
            }
        }
    }

    /// Exclusive access to the component an entity holds under a key.
    /// Whatever the caller writes through the reference, only that one
    /// bag slot changes: the key sets, the reverse index, the other
    /// entities and the resources all stay as they were.
    pub fn get_erased_mut(&mut self, entity: Entity, key: u64) -> (r: &mut Erased)
        requires
            old(self).wf(),
            old(self).valid(entity),
            old(self).bag(entity).contains_key(key),
        ensures
            *r == old(self).bag(entity)[key],
            final(self).wf(),
            final(self).bag(entity) == old(self).bag(entity).insert(key, *final(r)),
            final(self).key_list(entity) == old(self).key_list(entity),
            forall|h2: Entity| final(self).valid(h2) == old(self).valid(h2),
            forall|h2: Entity|
                h2 != entity && old(self).valid(h2) ==> final(self).bag(h2) == old(self).bag(h2)
                    && final(self).key_list(h2) == old(self).key_list(h2),
            forall|k2: u64| final(self).with_key(k2) == old(self).with_key(k2),
            final(self).live_handles() == old(self).live_handles(),
            final(self).slot_count() == old(self).slot_count(),
            forall|i: int|
                0 <= i < old(self).slot_count() ==> final(self).slot_generation(i) == old(
                    self,
                ).slot_generation(i),
            final(self).same_resources(*old(self)),
    {
        broadcast use lemma_live_of_update_same;

        let slot = &mut self.slots[entity.index];
        slot.bag.get_mut(key)
    }

    /// Looks a component up by key. `None` means the entity does not hold
    /// the key; a stale handle is refused by the precondition.
    pub fn try_get_erased(&self, entity: Entity, key: u64) -> (r: Option<&Erased>)
        requires
            self.wf(),
            self.valid(entity),
        ensures
            match r {
                Some(v) => self.bag(entity).contains_key(key) && *v == self.bag(entity)[key],
                None => !self.bag(entity).contains_key(key),
            },
    {
        self.slots[entity.index].bag.get(key)
    }

    /// Whether the entity holds a component under the key.
    pub fn has_erased(&self, entity: Entity, key: u64) -> (r: bool)
        requires
            self.wf(),
            self.valid(entity),
        ensures
            r == self.bag(entity).contains_key(key),
    {
        self.slots[entity.index].bag.contains(key)
    }

    /// Removes the component under a key from an entity and hands it
    /// back; a silent no-op (`None`) if the entity does not hold the key.
    pub fn remove_component(&mut self, entity: Entity, key: u64) -> (r: Option<Erased>)
        requires
            old(self).wf(),
            old(self).valid(entity),
        ensures
            final(self).wf(),
            Self::spec_component_removed(*old(self), *final(self), entity, key),
            final(self).bag(entity) == old(self).bag(entity).remove(key),
            match r {
                Some(v) => old(self).bag(entity).contains_key(key)
                    && v == old(self).bag(entity)[key],
                None => !old(self).bag(entity).contains_key(key) && *final(self) == *old(self),
            },
            !final(self).key_list(entity).contains(key),
            forall|k2: u64|
                k2 != key ==> (final(self).key_list(entity).contains(k2) == old(self).key_list(
                    entity,
                ).contains(k2)),
            forall|h2: Entity| final(self).valid(h2) == old(self).valid(h2),
            forall|h2: Entity|
                h2 != entity && old(self).valid(h2) ==> final(self).bag(h2) == old(self).bag(h2)
                    && final(self).key_list(h2) == old(self).key_list(h2),
            !final(self).with_key(key).contains(entity),
            forall|h2: Entity|
                h2 != entity ==> (final(self).with_key(key).contains(h2)
                    <==> old(self).with_key(key).contains(h2)),
            forall|k2: u64| k2 != key ==> final(self).with_key(k2) == old(self).with_key(k2),
            final(self).live_handles() == old(self).live_handles(),
            final(self).slot_count() == old(self).slot_count(),
            forall|i: int|
                0 <= i < old(self).slot_count() ==> final(self).slot_generation(i) == old(
                    self,
                ).slot_generation(i),
            final(self).same_resources(*old(self)),
    {
        proof {
            self.slots@[entity.index as int].bag.lemma_keys_dom();
        }
        let had = self.slots[entity.index].bag.contains(key);
        if !had {
            proof {
                assert(self.bag(entity) =~= old(self).bag(entity).remove(key));
                assert(!self.with_key(key).contains(entity)) by {
                    if self.with_key(key).contains(entity) {
                        let j = choose|j: int|
                            0 <= j < self.with_key(key).len() && self.with_key(key)[j] == entity;
                        assert(self.bag(entity).contains_key(key));
                    }
                }
            }
            return None;
        }
        let slot = &mut self.slots[entity.index];
        let r = slot.bag.remove(key);
        proof {
            lemma_live_of_agrees(old(self).slots@, self.slots@);
            self.slots@[entity.index as int].bag.lemma_keys_dom();
        }
        if r.is_some() {
            proof {
                assert(old(self).bag(entity).contains_key(key));
                assert(old(self).with_key(key).contains(entity));
                assert(self.index.view().contains_key(key));
                assert(exists|j: int|
                    {
                        &&& 0 <= j < old(self).key_list(entity).len()
                        &&& old(self).key_list(entity)[j] == key
                        &&& self.key_list(entity) == old(self).key_list(entity).remove(j)
                    }) by {
                    let j = choose|j: int|
                        {
                            &&& 0 <= j < old(self).slots@[entity.index as int].bag.keys().len()
                            &&& old(self).slots@[entity.index as int].bag.keys()[j] == key
                            &&& self.slots@[entity.index as int].bag.keys() == old(
                                self,
                            ).slots@[entity.index as int].bag.keys().remove(j)
                        };
                    assert(old(self).key_list(entity)[j] == key);
                }
            }
            let ghost idx0 = self.index;
            let list = self.index.get_mut(key);
            drop_handle(list, entity);
            proof {
                let newlist = self.index.view()[key];
                assert(self.index.view() == idx0.view().insert(key, newlist));
                assert(idx0.view()[key]@ == old(self).with_key(key));
                assert(exists|j: int|
                    {
                        &&& 0 <= j < old(self).with_key(key).len()
                        &&& old(self).with_key(key)[j] == entity
                        &&& self.with_key(key) == old(self).with_key(key).remove(j)
                    }) by {
                    let j = choose|j: int|
                        {
                            &&& 0 <= j < idx0.view()[key]@.len()
                            &&& idx0.view()[key]@[j] == entity
                            &&& newlist@ == idx0.view()[key]@.remove(j)
                        };
                    assert(old(self).with_key(key)[j] == entity);
                    assert(self.with_key(key) == old(self).with_key(key).remove(j));
                }
                assert forall|h2: Entity|
                    h2 != entity implies (self.with_key(key).contains(h2) <==> old(
                    self,
                ).with_key(key).contains(h2)) by {
                    assert(newlist@.contains(h2) <==> idx0.view()[key]@.contains(h2));
                }
                assert forall|k2: u64| k2 != key implies self.with_key(k2) == old(self).with_key(
                    k2,
                ) by {
                    if self.index.view().contains_key(k2) {
                        assert(self.index.view()[k2] == idx0.view()[k2]);
                    }
                }
                assert forall|k2: u64, j: int|
                    self.index.view().contains_key(k2) && 0 <= j
                        < self.index.view()[k2]@.len() implies {
                    &&& self.valid(#[trigger] self.index.view()[k2]@[j])
                    &&& self.bag(self.index.view()[k2]@[j]).contains_key(k2)
                } by {
                    let h2 = self.index.view()[k2]@[j];
                    if k2 == key {
                        assert(newlist@.contains(h2)) by {
                            assert(newlist@[j] == h2);
                        }
                        assert(h2 != entity);
                        assert(idx0.view()[key]@.contains(h2));
                        let j2 = choose|j2: int|
                            0 <= j2 < idx0.view()[key]@.len() && idx0.view()[key]@[j2] == h2;
                        assert(old(self).valid(h2) && old(self).bag(h2).contains_key(k2));
                    } else {
                        assert(self.index.view()[k2] == idx0.view()[k2]);
                        assert(old(self).valid(h2) && old(self).bag(h2).contains_key(k2));
                        if h2 == entity {
                            assert(self.bag(entity).contains_key(k2));
                        }
                    }
                }
                assert forall|k2: u64, j1: int, j2: int|
                    self.index.view().contains_key(k2) && 0 <= j1 < j2
                        < self.index.view()[k2]@.len() implies #[trigger] self.index.view()[k2]@[j1] != #[trigger] self.index.view()[k2]@[j2] by {
                    if k2 != key {
                        assert(self.index.view()[k2] == idx0.view()[k2]);
                    }
                }
                assert forall|h2: Entity, k2: u64|
                    self.valid(h2) && #[trigger] self.bag(h2).contains_key(k2) implies self.with_key(
                    k2,
                ).contains(h2) by {
                    assert(old(self).valid(h2));
                    if h2 == entity {
                        assert(k2 != key);
                        assert(old(self).bag(entity).contains_key(k2));
                    } else {
                        assert(old(self).bag(h2).contains_key(k2));
                    }
                    assert(old(self).with_key(k2).contains(h2));
                    if k2 == key {
                        assert(h2 != entity);
                    }
                }
            }
        } else {
            proof {
                assert(self.bag(entity) =~= old(self).bag(entity).remove(key));
                assert(!old(self).bag(entity).contains_key(key));
                assert forall|h2: Entity, k2: u64|
                    self.valid(h2) && #[trigger] self.bag(h2).contains_key(k2) implies self.with_key(
                    k2,
                ).contains(h2) by {
                    assert(old(self).valid(h2));
                    assert(old(self).bag(h2).contains_key(k2));
                }
                assert(!self.with_key(key).contains(entity)) by {
                    if self.with_key(key).contains(entity) {
                        assert(old(self).with_key(key).contains(entity));
                        let j = choose|j: int|
                            0 <= j < old(self).with_key(key).len() && old(self).with_key(key)[j]
                                == entity;
                        assert(old(self).bag(entity).contains_key(key));
                    }
                }
            }
        }
        r
    }

    /// The keys of the components on an entity, in insertion order: the
    /// per-entity type list, which also drives cleanup on removal.
    pub fn get_component_keys(&self, entity: Entity) -> (r: Vec<u64>)
        requires
            self.wf(),
            self.valid(entity),
        ensures
            r@ == self.key_list(entity),
    {
        let n = self.slots[entity.index].bag.len();
        let mut out: Vec<u64> = Vec::new();
        let mut i: usize = 0;
        while i < n
            invariant
                self.wf(),
                self.valid(entity),
                n == self.key_list(entity).len(),
                i <= n,
                out@ == self.key_list(entity).take(i as int),
            decreases n - i,
        {
            let k = self.slots[entity.index].bag.key_at(i);
            out.push(k);
            proof {
                assert(out@ =~= self.key_list(entity).take(i as int + 1));
            }
            i = i + 1;
        }
        proof {
            assert(self.key_list(entity).take(n as int) =~= self.key_list(entity));
        }
        out
    }

    /// All live handles, in slot order.
    pub fn get_entities(&self) -> (r: Vec<Entity>)
        requires
            self.wf(),
        ensures
            r@ == self.live_handles(),
    {
        let n = self.slots.len();
        let mut out: Vec<Entity> = Vec::new();
        let mut i: usize = 0;
        while i < n
            invariant
                n == self.slots@.len(),
                i <= n,
                out@ == live_of(self.slots@.take(i as int)),
            decreases n - i,
        {
            proof {
                assert(self.slots@.take(i as int + 1).drop_last() =~= self.slots@.take(i as int));
                assert(self.slots@.take(i as int + 1).last() == self.slots@[i as int]);
            }
            if self.slots[i].occupied {
                let generation = self.slots[i].generation;
                out.push(Entity { index: i, generation });
            }
            i = i + 1;
        }
        proof {
            assert(self.slots@.take(n as int) =~= self.slots@);
        }
        out
    }

    /// The `index`th live handle in slot order, if there are that many
    /// live entities; linear in the table size.
    pub fn get_nth_entity(&self, index: usize) -> (r: Option<Entity>)
        requires
            self.wf(),
        ensures
            match r {
                Some(h) => index < self.live_handles().len() && h == self.live_handles()[index as int] && self.valid(h),
                None => index >= self.live_handles().len(),
            },
    {
        let all = self.get_entities();
        if index < all.len() {
            proof {
                assert(self.live_handles().contains(self.live_handles()[index as int])) by {
                    assert(self.live_handles()[index as int] == self.live_handles()[index as int]);
                }
                lemma_live_of_membership(self.slots@, self.live_handles()[index as int]);
            }
            Some(all[index])
        } else {
            None
        }
    }

    /// All entities recorded under a key, in the index's own order; the
    /// order is stable between mutations of the key's record.
    pub fn entities_with_key(&self, key: u64) -> (r: Vec<Entity>)
        requires
            self.wf(),
        ensures
            r@ == self.with_key(key),
    {
        match self.index.get(key) {
            Some(list) => copy_handles(list),
            None => Vec::new(),
        }
    }

    /// How many entities hold a component under the key.
    pub fn count_with_key(&self, key: u64) -> (r: usize)
        requires
            self.wf(),
        ensures
            r == self.with_key(key).len(),
    {
        match self.index.get(key) {
            Some(list) => list.len(),
            None => 0,
        }
    }

    /// The `index`th entity recorded under a key; linear, callers that
    /// want them all should take `entities_with_key` instead.
    pub fn nth_entity_with_key(&self, key: u64, index: usize) -> (r: Option<Entity>)
        requires
            self.wf(),
        ensures
            match r {
                Some(h) => index < self.with_key(key).len() && h == self.with_key(key)[index as int]
                    && self.valid(h),
                None => index >= self.with_key(key).len(),
            },
    {
        match self.index.get(key) {
            Some(list) => {
                if index < list.len() {
                    Some(list[index])
                } else {
                    None
                }
            },
            None => None,
        }
    }

    /// Well-formedness and the entity picture carry over between two
    /// stores that differ only in what their resource cells hold.
    proof fn lemma_same_fields_wf(a: Self, b: Self)
        requires
            a.wf(),
            b.slots == a.slots,
            b.free == a.free,
            b.live_count == a.live_count,
            b.index == a.index,
            b.resources.wf(),
        ensures
            b.wf(),
            b.same_entities(a),
    {
        assert forall|h: Entity, k: u64|
            b.valid(h) && #[trigger] b.bag(h).contains_key(k) implies b.with_key(k).contains(
            h,
        ) by {
            assert(a.valid(h));
            assert(a.bag(h).contains_key(k));
            assert(a.with_key(k).contains(h));
        }
        assert forall|k: u64, j: int|
            b.index.view().contains_key(k) && 0 <= j < b.index.view()[k]@.len() implies b.valid(
            #[trigger] b.index.view()[k]@[j],
        ) && b.bag(b.index.view()[k]@[j]).contains_key(k) by {
            assert(a.valid(a.index.view()[k]@[j]) && a.bag(a.index.view()[k]@[j]).contains_key(k));
        }
        assert forall|j: int| 0 <= j < b.free@.len() implies {
            &&& (#[trigger] b.free@[j]) < b.slots@.len()
            &&& !b.slots@[b.free@[j] as int].occupied
            &&& b.slots@[b.free@[j] as int].generation < u64::MAX
        } by {
            assert(a.free@[j] < a.slots@.len());
        }
    }

    /// Stores a resource cell under a key, overwriting any earlier one;
    /// a new key joins the end of the update order, an old key keeps its
    /// place in it.
    pub fn add_resource_cell(&mut self, key: u64, cell: ResourceCell)
        requires
            old(self).wf(),
        ensures
            final(self).wf(),
            final(self).resource_map() == old(self).resource_map().insert(key, cell),
            final(self).resource_keys() == if old(self).resource_map().contains_key(key) {
                old(self).resource_keys()
            } else {
                old(self).resource_keys().push(key)
            },
            final(self).same_entities(*old(self)),
    {
        self.resources.put(key, cell);
        proof {
            Self::lemma_same_fields_wf(*old(self), *self);
        }
    }

    /// Drops the resource under a key, if any.
    pub fn remove_resource_cell(&mut self, key: u64)
        requires
            old(self).wf(),
        ensures
            final(self).wf(),
            final(self).resource_map() == old(self).resource_map().remove(key),
            final(self).same_entities(*old(self)),
    {
        let _ = self.resources.remove(key);
        proof {
            Self::lemma_same_fields_wf(*old(self), *self);
        }
    }

    /// Looks the resource cell up under a key.
    pub fn get_resource_cell(&self, key: u64) -> (r: Option<&ResourceCell>)
        requires
            self.wf(),
        ensures
            match r {
                Some(c) => self.resource_map().contains_key(key) && *c == self.resource_map()[key],
                None => !self.resource_map().contains_key(key),
            },
    {
        self.resources.get(key)
    }

    /// Exclusive access to the resource cell under a key that is
    /// present. Whatever the caller writes through it, the update order
    /// and the entities stay as they were.
    pub fn get_resource_cell_mut(&mut self, key: u64) -> (r: &mut ResourceCell)
        requires
            old(self).wf(),
            old(self).resource_map().contains_key(key),
        ensures
            *r == old(self).resource_map()[key],
            final(self).wf(),
            final(self).resource_map() == old(self).resource_map().insert(key, *final(r)),
            final(self).resource_keys() == old(self).resource_keys(),
            final(self).same_entities(*old(self)),
    {
        self.resources.get_mut(key)
    }

    /// Drives every resource's `update` hook once, in insertion order.
    /// The hooks are user code: they may change the resources' contents
    /// at will, but the entities and the update order are untouched.
    pub fn update_resources(&mut self)
        requires
            old(self).wf(),
        ensures
            final(self).wf(),
            final(self).resource_keys() == old(self).resource_keys(),
            final(self).same_entities(*old(self)),
    {
        let n = self.resources.len();
        let mut i: usize = 0;
        while i < n
            invariant
                n == self.resources.keys().len(),
                i <= n,
                self.slots == old(self).slots,
                self.free == old(self).free,
                self.live_count == old(self).live_count,
                self.index == old(self).index,
                self.resources.wf(),
                self.resources.keys() == old(self).resources.keys(),
            decreases n - i,
        {
            let k = self.resources.key_at(i);
            let cell = self.resources.get_mut(k);
            res_update(cell);
            i = i + 1;
        }
        proof {
            Self::lemma_same_fields_wf(*old(self), *self);
        }
    }

    /// A valid handle always points inside the slot table, at a slot
    /// carrying its generation.
    pub proof fn lemma_valid_bounds(&self, h: Entity)
        requires
            self.valid(h),
        ensures
            h.spec_index() < self.slot_count(),
            self.slot_generation(h.spec_index() as int) == h.spec_generation(),
    {
    }

    /// Law: every live entity that holds a component under a key is
    /// listed by the reverse index under that key.
    pub proof fn lemma_holder_is_indexed(&self, h: Entity, k: u64)
        requires
            self.wf(),
            self.valid(h),
            self.bag(h).contains_key(k),
        ensures
            self.with_key(k).contains(h),
    {
    }

    /// Law: every entity the reverse index lists under a key is valid
    /// and holds a component under that key, so looking the key up on it
    /// succeeds.
    pub proof fn lemma_indexed_holds_component(&self, k: u64, j: int)
        requires
            self.wf(),
            0 <= j < self.with_key(k).len(),
        ensures
            self.valid(self.with_key(k)[j]),
            self.bag(self.with_key(k)[j]).contains_key(k),
    {
        assert(self.index.view().contains_key(k));
        assert(self.index.view()[k]@[j] == self.with_key(k)[j]);
    }

    /// Law: every live handle is valid, and every valid handle is among
    /// the live handles.
    pub proof fn lemma_live_handles_are_valid(&self, h: Entity)
        requires
            self.wf(),
        ensures
            self.live_handles().contains(h) <==> self.valid(h),
    {
        lemma_live_of_membership(self.slots@, h);
    }

    /// Law: the per-entity type list names exactly the keys of the bag,
    /// each exactly once.
    pub proof fn lemma_key_list_exact(&self, h: Entity)
        requires
            self.wf(),
            self.valid(h),
        ensures
            forall|k: u64| self.key_list(h).contains(k) <==> self.bag(h).contains_key(k),
            forall|j1: int, j2: int|
                0 <= j1 < j2 < self.key_list(h).len() ==> self.key_list(h)[j1] != self.key_list(
                    h,
                )[j2],
    {
        self.slots@[h.index as int].bag.lemma_keys_dom();
        self.slots@[h.index as int].bag.lemma_keys_nodup();
    }

    /// Law: storing a component and then looking its key up yields
    /// exactly the stored value, and the reverse index lists the entity.
    pub proof fn lemma_store_then_lookup(pre: Self, post: Self, h: Entity, k: u64, e: Erased)
        requires
            Self::spec_component_added(pre, post, h, k, e),
        ensures
            post.bag(h).contains_key(k),
            post.bag(h)[k] == e,
            post.with_key(k).contains(h),
    {
    }

    /// Law: storing twice under one key keeps the second value, and the
    /// type list still names the key exactly once.
    pub proof fn lemma_overwrite_keeps_last(
        s0: Self,
        s1: Self,
        s2: Self,
        h: Entity,
        k: u64,
        e1: Erased,
        e2: Erased,
    )
        requires
            s0.wf(),
            s2.wf(),
            s0.valid(h),
            Self::spec_component_added(s0, s1, h, k, e1),
            Self::spec_component_added(s1, s2, h, k, e2),
        ensures
            s2.bag(h).contains_key(k),
            s2.bag(h)[k] == e2,
            s2.key_list(h).contains(k),
            forall|j1: int, j2: int|
                0 <= j1 < j2 < s2.key_list(h).len() ==> s2.key_list(h)[j1] != s2.key_list(h)[j2],
    {
        assert(s2.valid(h));
        s2.lemma_key_list_exact(h);
        assert(s1.bag(h).contains_key(k));
        assert(s2.bag(h).contains_key(k));
    }

    /// Law: the reverse index lists each holder of a key exactly once.
    pub proof fn lemma_with_key_distinct(&self, k: u64)
        requires
            self.wf(),
        ensures
            forall|j1: int, j2: int|
                0 <= j1 < j2 < self.with_key(k).len() ==> self.with_key(k)[j1] != self.with_key(
                    k,
                )[j2],
    {
        assert forall|j1: int, j2: int|
            0 <= j1 < j2 < self.with_key(k).len() implies self.with_key(k)[j1] != self.with_key(
            k,
        )[j2] by {
            assert(self.index.view().contains_key(k));
            assert(self.index.view()[k]@[j1] != self.index.view()[k]@[j2]);
        }
    }

    /// Law: the live-handle list names each live entity exactly once, in
    /// strictly increasing slot order.
    pub proof fn lemma_live_handles_distinct(&self)
        requires
            self.wf(),
        ensures
            forall|j1: int, j2: int|
                0 <= j1 < j2 < self.live_handles().len() ==> self.live_handles()[j1]
                    != self.live_handles()[j2],
    {
        lemma_live_of_sorted(self.slots@);
        assert forall|j1: int, j2: int|
            0 <= j1 < j2 < self.live_handles().len() implies self.live_handles()[j1]
            != self.live_handles()[j2] by {
            assert(live_of(self.slots@)[j1].index < live_of(self.slots@)[j2].index);
        }
    }

    /// A handle is outlived once its slot carries a later generation:
    /// such a handle can never look valid again, whatever is done to the
    /// store, since slot generations only grow.
    pub open spec fn outlived(self, h: Entity) -> bool {
        &&& h.spec_index() < self.slot_count()
        &&& self.slot_generation(h.spec_index() as int) > h.spec_generation()
    }

    /// Law: an outlived handle is invalid.
    pub proof fn lemma_outlived_handle_is_invalid(&self, h: Entity)
        requires
            self.outlived(h),
        ensures
            !self.valid(h),
    {
    }

    /// Law: removing an entity outlives its handle.
    pub proof fn lemma_removed_handle_outlived(pre: Self, post: Self, h: Entity)
        requires
            pre.valid(h),
            Self::spec_entity_removed(pre, post, h),
        ensures
            post.outlived(h),
    {
    }

    /// Law: staleness is forever. Every operation's contract keeps the
    /// slot count from shrinking and the generations from falling, so an
    /// outlived handle stays outlived — and invalid — across any run of
    /// operations.
    pub proof fn lemma_outlived_persists(pre: Self, post: Self, h: Entity)
        requires
            pre.outlived(h),
            pre.slot_count() <= post.slot_count(),
            forall|i: int|
                0 <= i < pre.slot_count() ==> post.slot_generation(i) >= pre.slot_generation(i),
        ensures
            post.outlived(h),
            !post.valid(h),
    {
    }

    /// Law (generational safety): a handle that a removal freed never
    /// equals the handle of any entity added right after, and it stays
    /// invalid — its slot either lies vacant or carries a later
    /// generation than any handle into its earlier lives.
    pub proof fn lemma_generation_guards_reuse(
        s0: Self,
        s1: Self,
        s2: Self,
        h: Entity,
        h2: Entity,
    )
        requires
            s0.valid(h),
            Self::spec_entity_removed(s0, s1, h),
            Self::spec_entity_added(s1, s2, h2),
        ensures
            h2 != h,
            !s2.valid(h),
    {
        if h2.index == h.index {
            assert(s2.slot_generation(h2.index as int) == h2.generation);
            assert(s1.slot_generation(h.index as int) > h.generation);
            assert(s2.slot_generation(h.index as int) == s1.slot_generation(h.index as int));
        } else {
            assert(!s1.valid(h));
            assert(s2.valid(h) == s1.valid(h));
        }
    }
}

} // verus!
