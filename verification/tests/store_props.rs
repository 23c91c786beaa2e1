use ecs_core::EntitiesAndComponents;
use ecs_core::SingleMutEntity;
use ecs_core::World;
use ecs_core::erase;
use ecs_core::erased_ref;
use ecs_core::key_of;

#[derive(Debug, PartialEq, Clone)]
struct Health {
    points: i64,
}

#[derive(Debug, PartialEq, Clone)]
struct Name {
    text: String,
}

struct Score {
    value: u64,
}

impl ecs_core::Resource for Score {
    fn update(&mut self) {
        self.value += 2;
    }
}

struct Silent {
    seen: bool,
}

impl ecs_core::Resource for Silent {
}

#[test]
fn key_level_roundtrip() {
    let mut store = EntitiesAndComponents::new();
    let e = store.add_entity();

    store.add_component(e, 7, erase(Health { points: 41 }));
    assert!(store.has_erased(e, 7));
    assert!(!store.has_erased(e, 8));

    let held = store.try_get_erased(e, 7).unwrap();
    assert_eq!(erased_ref::<Health>(held).unwrap().points, 41);

    // overwriting under the same key keeps only the second value
    store.add_component(e, 7, erase(Health { points: 42 }));
    let held = store.try_get_erased(e, 7).unwrap();
    assert_eq!(erased_ref::<Health>(held).unwrap().points, 42);

    let taken = store.remove_component(e, 7);
    assert!(taken.is_some());
    assert_eq!(erased_ref::<Health>(&taken.unwrap()).unwrap().points, 42);
    assert!(!store.has_erased(e, 7));
    assert!(store.remove_component(e, 7).is_none());
}

#[test]
fn reverse_index_by_key() {
    let mut store = EntitiesAndComponents::new();
    let a = store.add_entity();
    let b = store.add_entity();
    let c = store.add_entity();

    store.add_component(a, 3, erase(1u32));
    store.add_component(b, 3, erase(2u32));
    store.add_component(c, 4, erase(3u32));

    assert_eq!(store.count_with_key(3), 2);
    assert_eq!(store.count_with_key(4), 1);
    assert_eq!(store.count_with_key(5), 0);

    let holders = store.entities_with_key(3);
    assert_eq!(holders.len(), 2);
    assert!(holders.contains(&a));
    assert!(holders.contains(&b));

    assert_eq!(store.nth_entity_with_key(4, 0), Some(c));
    assert_eq!(store.nth_entity_with_key(4, 1), None);

    // overwriting does not duplicate the reverse-index record
    store.add_component(a, 3, erase(9u32));
    assert_eq!(store.count_with_key(3), 2);

    store.remove_component(a, 3);
    assert_eq!(store.count_with_key(3), 1);
    assert_eq!(store.entities_with_key(3), vec![b]);

    store.remove_entity(b);
    assert_eq!(store.count_with_key(3), 0);
}

#[test]
fn generational_reuse_yields_fresh_handles() {
    let mut store = EntitiesAndComponents::new();
    let first = store.add_entity();
    store.add_component_to(first, Health { points: 10 });

    store.remove_entity(first);
    assert!(!store.is_valid(first));

    // the slot is reused, but under a new generation
    let second = store.add_entity();
    assert!(store.is_valid(second));
    assert_ne!(first, second);
    assert!(!store.is_valid(first));
    assert!(store.try_get_component::<Health>(second).is_none());
}

#[test]
fn entity_listing_follows_slots() {
    let mut store = EntitiesAndComponents::new();
    assert_eq!(store.get_entity_count(), 0);
    assert_eq!(store.get_nth_entity(0), None);

    let a = store.add_entity();
    let b = store.add_entity();
    let c = store.add_entity();
    assert_eq!(store.get_entity_count(), 3);
    assert_eq!(store.get_entities(), vec![a, b, c]);
    assert_eq!(store.get_nth_entity(1), Some(b));
    assert_eq!(store.get_nth_entity(3), None);

    store.remove_entity(b);
    assert_eq!(store.get_entity_count(), 2);
    assert_eq!(store.get_entities(), vec![a, c]);
}

#[test]
fn component_keys_list_the_types_in_order() {
    let mut store = EntitiesAndComponents::new();
    let e = store.add_entity();
    assert_eq!(store.get_component_keys(e), Vec::<u64>::new());

    store.add_component(e, 9, erase(1u32));
    store.add_component(e, 4, erase(2u32));
    assert_eq!(store.get_component_keys(e), vec![9, 4]);

    // an overwrite does not duplicate the key
    store.add_component(e, 9, erase(3u32));
    assert_eq!(store.get_component_keys(e), vec![9, 4]);

    store.remove_component(e, 9);
    assert_eq!(store.get_component_keys(e), vec![4]);
}

#[test]
fn distinct_component_types_do_not_collide() {
    let mut store = EntitiesAndComponents::new();
    let e = store.add_entity();

    store.add_component_to(e, Health { points: 5 });
    store.add_component_to(e, Name { text: String::from("pawn") });

    assert_ne!(key_of::<Health>(), key_of::<Name>());
    assert_eq!(key_of::<Health>(), key_of::<Health>());

    store.remove_component_from::<Name>(e);
    assert_eq!(store.try_get_component::<Health>(e).unwrap().points, 5);
    assert!(store.try_get_component::<Name>(e).is_none());
}

#[test]
fn resource_overwrite_and_removal() {
    let mut store = EntitiesAndComponents::new();
    assert!(store.get_resource::<Score>().is_none());

    store.add_resource(Score { value: 1 });
    store.add_resource(Score { value: 8 });
    assert_eq!(store.get_resource::<Score>().unwrap().value, 8);

    store.remove_resource::<Score>();
    assert!(store.get_resource::<Score>().is_none());
}

#[test]
fn resource_default_update_is_empty() {
    let mut engine = World::new();
    engine.entities_and_components.add_resource(Silent { seen: false });
    engine.run();
    engine.run();
    assert_eq!(engine.entities_and_components.get_resource::<Silent>().unwrap().seen, false);
}

#[test]
fn resource_updates_run_once_per_tick() {
    let mut engine = World::new();
    engine.entities_and_components.add_resource(Score { value: 0 });
    for _ in 0..3 {
        engine.run();
    }
    assert_eq!(engine.entities_and_components.get_resource::<Score>().unwrap().value, 6);
}

#[test]
fn cursor_reaches_only_its_entity() {
    let mut store = EntitiesAndComponents::new();
    let mine = store.add_entity();
    let other = store.add_entity();
    store.add_component_to(other, Health { points: 3 });

    let mut cursor = SingleMutEntity::new(store, mine);
    assert_eq!(cursor.get_entity(), mine);
    assert!(!cursor.has_component::<Health>());
    cursor.add_component(Health { points: 11 });
    assert!(cursor.has_component::<Health>());
    assert_eq!(cursor.try_get_component::<Health>().unwrap().points, 11);
    cursor.remove_component::<Health>();
    assert!(!cursor.has_component::<Health>());

    let store = cursor.into_store();
    assert_eq!(store.try_get_component::<Health>(other).unwrap().points, 3);
    assert!(store.try_get_component::<Health>(mine).is_none());
}

#[test]
fn cursor_removal_kills_the_handle() {
    let mut store = EntitiesAndComponents::new();
    let doomed = store.add_entity();
    store.add_component_to(doomed, Health { points: 1 });

    let mut cursor = SingleMutEntity::new(store, doomed);
    cursor.remove_entity();
    let store = cursor.into_store();

    assert!(!store.is_valid(doomed));
    assert_eq!(store.get_entity_count(), 0);
    assert_eq!(store.count_with_key(key_of::<Health>()), 0);
}

#[test]
fn exclusive_access_writes_in_place() {
    let mut store = EntitiesAndComponents::new();
    let e = store.add_entity();
    store.add_component_to(e, Health { points: 1 });

    assert!(store.try_get_component_mut::<Name>(e).is_none());
    {
        let health = store.try_get_component_mut::<Health>(e).unwrap();
        health.points = 99;
    }
    assert_eq!(store.try_get_component::<Health>(e).unwrap().points, 99);

    store.add_resource(Score { value: 4 });
    {
        let score = store.get_resource_mut::<Score>().unwrap();
        score.value += 1;
    }
    assert_eq!(store.get_resource::<Score>().unwrap().value, 5);
    assert!(store.get_resource_mut::<Silent>().is_none());
}

struct SelfDestruct {}

impl ecs_core::System for SelfDestruct {
    fn single_entity_step(&self, single_entity: &mut SingleMutEntity) {
        single_entity.remove_entity();
    }

    fn implements_single_entity_step(&self) -> bool {
        true
    }
}

struct CountTicks {}

impl ecs_core::System for CountTicks {
    fn single_entity_step(&self, single_entity: &mut SingleMutEntity) {
        let health = single_entity.try_get_component_mut::<Health>().unwrap();
        health.points += 1;
    }

    fn implements_single_entity_step(&self) -> bool {
        true
    }
}

#[test]
fn removal_during_the_entity_phase_is_safe() {
    // the first system removes every entity it sees; the second would
    // touch the same entities, but each one's handle is already dead, so
    // the scheduler skips it and the tick still completes
    let mut engine = World::new();
    for i in 0..12i64 {
        let e = engine.entities_and_components.add_entity();
        engine.entities_and_components.add_component_to(e, Health { points: i });
    }
    engine.add_system(SelfDestruct {});
    engine.add_system(CountTicks {});
    engine.run();
    assert_eq!(engine.entities_and_components.get_entity_count(), 0);
}

#[test]
fn empty_world_ticks_quietly() {
    let mut engine = World::new();
    engine.run();
    engine.run();
    assert_eq!(engine.entities_and_components.get_entity_count(), 0);
}

#[test]
fn serial_runs_repeat_identically() {
    // the same world built twice and ticked the same number of times
    // ends in the same state, observed component by component
    let mut outcomes: Vec<Vec<i64>> = vec![];
    for _ in 0..3 {
        let mut engine = World::new();
        let mut handles = vec![];
        for i in 0..10i64 {
            let e = engine.entities_and_components.add_entity();
            engine.entities_and_components.add_component_to(e, Health { points: i });
            handles.push(e);
        }
        engine.add_system(Doubler {});
        for _ in 0..4 {
            engine.run();
        }
        let mut seen = vec![];
        for e in handles {
            seen.push(engine.entities_and_components.try_get_component::<Health>(e).unwrap().points);
        }
        outcomes.push(seen);
    }
    assert_eq!(outcomes[0], outcomes[1]);
    assert_eq!(outcomes[1], outcomes[2]);
    assert_eq!(outcomes[0][1], 16);
}

struct Doubler {}

impl ecs_core::System for Doubler {
    fn run(&mut self, engine: &mut EntitiesAndComponents) {
        for i in 0..engine.get_entity_count() {
            let entity = engine.get_nth_entity(i).unwrap();
            let points = engine.try_get_component::<Health>(entity).unwrap().points;
            engine.add_component_to(entity, Health { points: points * 2 });
        }
    }
}
