use ecs_core::EntitiesAndComponents;
use ecs_core::EntitiesAndComponentsThreadSafe;
use ecs_core::SingleMutEntity;
use ecs_core::System;
use ecs_core::World;

#[derive(Debug, PartialEq, Clone)]
struct Position {
    x: f32,
    y: f32,
}

#[derive(Debug, PartialEq, Clone)]
struct Velocity {
    x: f32,
    y: f32,
}

struct MovementSystem {}

impl System for MovementSystem {
    fn run(&mut self, engine: &mut EntitiesAndComponents) {
        for i in 0..engine.get_entity_count() {
            let entity = engine.get_nth_entity(i).unwrap();

            let velocity = engine.try_get_component::<Velocity>(entity).unwrap().clone();
            let position = engine.try_get_component_mut::<Position>(entity).unwrap();

            position.x += velocity.x;
            position.y += velocity.y;
        }
    }
}

struct ParallelMovementSystem {}

impl System for ParallelMovementSystem {
    fn single_entity_step(&self, single_entity: &mut SingleMutEntity) {
        let velocity = single_entity.try_get_component::<Velocity>().unwrap().clone();
        let position = single_entity.try_get_component_mut::<Position>().unwrap();

        position.x += velocity.x;
        position.y += velocity.y;
    }

    fn implements_single_entity_step(&self) -> bool {
        true
    }
}

#[test]
fn test_components_mut() {
    let mut engine = World::new();
    let entities_and_components = &mut engine.entities_and_components;

    let entity = entities_and_components.add_entity();

    entities_and_components.add_component_to(entity, Position { x: 0.0, y: 0.0 });
    entities_and_components.add_component_to(entity, Velocity { x: 1.0, y: 1.0 });

    engine.add_system(MovementSystem {});

    for _ in 0..5 {
        engine.run();
    }
}

#[test]
fn test_try_get_components() {
    let mut engine = World::new();
    let entities_and_components = &mut engine.entities_and_components;

    let entity = entities_and_components.add_entity();

    entities_and_components.add_component_to(entity, Position { x: 0.0, y: 0.0 });
    entities_and_components.add_component_to(entity, Velocity { x: 1.0, y: 1.0 });

    let (position, velocity) =
        entities_and_components.try_get_components::<Position, Velocity>(entity);

    assert_eq!(position.unwrap().x, 0.0);
    assert_eq!(position.unwrap().y, 0.0);
    assert_eq!(velocity.unwrap().x, 1.0);
    assert_eq!(velocity.unwrap().y, 1.0);
}

#[test]
fn test_overriding_components() {
    let mut engine = World::new();
    let entities_and_components = &mut engine.entities_and_components;

    let entity = entities_and_components.add_entity();

    entities_and_components.add_component_to(entity, Position { x: 0.0, y: 0.0 });
    entities_and_components.add_component_to(entity, Position { x: 6.0, y: 1.0 });

    let position = entities_and_components.try_get_component::<Position>(entity).unwrap();
    assert_eq!(position.x, 6.0);
    assert_eq!(position.y, 1.0);
}

#[test]
fn test_multiple_entities() {
    let mut engine = World::new();
    let entities_and_components = &mut engine.entities_and_components;

    let entity = entities_and_components.add_entity();
    let entity_2 = entities_and_components.add_entity();

    entities_and_components.add_component_to(entity, Position { x: 0.0, y: 0.0 });
    entities_and_components.add_component_to(entity, Velocity { x: 1.0, y: 1.0 });

    entities_and_components.add_component_to(entity_2, Position { x: 0.0, y: 0.0 });
    entities_and_components.add_component_to(entity_2, Velocity { x: 1.0, y: 1.0 });

    let position = entities_and_components.try_get_component::<Position>(entity).unwrap();

    println!("Position: {}, {}", position.x, position.y);
}

#[test]
fn test_add_entity_with_components() {
    let mut engine = World::new();
    let entities_and_components = &mut engine.entities_and_components;

    let entity = entities_and_components
        .add_entity_with(Position { x: 0.0, y: 0.0 }, Velocity { x: 1.0, y: 1.0 });

    let (position, velocity) =
        entities_and_components.try_get_components::<Position, Velocity>(entity);
    let position = position.unwrap();
    let velocity = velocity.unwrap();

    assert_eq!(position.x, 0.0);
    assert_eq!(position.y, 0.0);
    assert_eq!(velocity.x, 1.0);
    assert_eq!(velocity.y, 1.0);
}

#[test]
fn test_entity_removal() {
    let mut engine = World::new();
    let entities_and_components = &mut engine.entities_and_components;

    let entity = entities_and_components
        .add_entity_with(Position { x: 0.0, y: 0.0 }, Velocity { x: 1.0, y: 1.0 });

    {
        let (position, velocity) =
            entities_and_components.try_get_components::<Position, Velocity>(entity);
        let position = position.unwrap();
        let velocity = velocity.unwrap();

        assert_eq!(position.x, 0.0);
        assert_eq!(position.y, 0.0);
        assert_eq!(velocity.x, 1.0);
        assert_eq!(velocity.y, 1.0);
    }

    entities_and_components.remove_entity(entity);

    assert_eq!(entities_and_components.get_entity_count(), 0);

    let entity = entities_and_components.add_entity();

    // make sure the new entity doesn't have the old entity's components
    let (position, velocity) =
        entities_and_components.try_get_components::<Position, Velocity>(entity);

    assert_eq!(position, None);
    assert_eq!(velocity, None);
}

#[test]
fn test_get_entities_with_component() {
    let mut engine = World::new();
    let entities_and_components = &mut engine.entities_and_components;

    let entity = entities_and_components.add_entity();
    let entity_2 = entities_and_components.add_entity();

    entities_and_components.add_component_to(entity, Position { x: 0.0, y: 0.0 });
    entities_and_components.add_component_to(entity, Velocity { x: 1.0, y: 1.0 });

    entities_and_components.add_component_to(entity_2, Position { x: 0.0, y: 0.0 });
    entities_and_components.add_component_to(entity_2, Velocity { x: 1.0, y: 1.0 });

    let entities = entities_and_components.get_entities_with_component::<Position>();

    assert_eq!(entities.len(), 2);
}

struct TestResource {
    value: i32,
}

impl ecs_core::Resource for TestResource {
    fn update(&mut self) {
        self.value += 1;
    }
}

#[test]
fn test_resources() {
    let mut engine = World::new();
    {
        let entities_and_components = &mut engine.entities_and_components;

        let resource = TestResource { value: 0 };

        entities_and_components.add_resource(resource);

        let resource = entities_and_components.get_resource::<TestResource>().unwrap();

        assert_eq!(resource.value, 0);
    }

    for _ in 0..5 {
        engine.run();
    }

    {
        let entities_and_components = &mut engine.entities_and_components;

        let resource = entities_and_components.get_resource::<TestResource>().unwrap();

        assert_eq!(resource.value, 5);
    }
}

#[test]
fn test_parallel_systems() {
    let mut engine = World::new();
    let entity;
    {
        let entities_and_components = &mut engine.entities_and_components;

        entity = entities_and_components.add_entity();
        let entity_2 = entities_and_components.add_entity();

        entities_and_components.add_component_to(entity, Position { x: 0.0, y: 0.0 });
        entities_and_components.add_component_to(entity, Velocity { x: 1.0, y: 1.0 });

        entities_and_components.add_component_to(entity_2, Position { x: 0.0, y: 0.0 });
        entities_and_components.add_component_to(entity_2, Velocity { x: 1.0, y: 1.0 });

        engine.add_system(ParallelMovementSystem {});
    }

    for _ in 0..5 {
        engine.run();
    }

    {
        let entities_and_components = &mut engine.entities_and_components;

        let (position, velocity) =
            entities_and_components.try_get_components::<Position, Velocity>(entity);
        let position = position.unwrap();
        let velocity = velocity.unwrap();

        assert_eq!(position.x, 5.0);
        assert_eq!(position.y, 5.0);
        assert_eq!(velocity.x, 1.0);
        assert_eq!(velocity.y, 1.0);
    }
}

struct PrestepSystem {
    postions: Vec<Position>,
}

impl System for PrestepSystem {
    fn prestep(&mut self, engine: &EntitiesAndComponentsThreadSafe) {
        self.postions.clear();

        for entity in engine.get_entities_with_component::<Position>() {
            let position = engine.try_get_component::<Position>(entity).unwrap();
            self.postions.push(position.clone());
        }
    }

    fn implements_prestep(&self) -> bool {
        true
    }

    fn run(&mut self, engine: &mut EntitiesAndComponents) {
        for position in &self.postions {
            let entity = engine.add_entity();
            engine.add_component_to(entity, position.clone());
        }
    }
}

#[test]
fn test_prestep() {
    let mut engine = World::new();
    {
        let entities_and_components = &mut engine.entities_and_components;

        let entity = entities_and_components.add_entity();
        let entity_2 = entities_and_components.add_entity();

        entities_and_components.add_component_to(entity, Position { x: 0.0, y: 1.0 });
        entities_and_components.add_component_to(entity, Velocity { x: 1.0, y: 1.0 });

        entities_and_components.add_component_to(entity_2, Position { x: 1.0, y: 0.0 });
        entities_and_components.add_component_to(entity_2, Velocity { x: 1.0, y: 1.0 });

        engine.add_system(PrestepSystem { postions: Vec::new() });
    }

    for _ in 0..1 {
        engine.run();
    }

    {
        let entities_and_components = &mut engine.entities_and_components;
        let first_added_entity = entities_and_components.get_nth_entity(0);
        let second_added_entity = entities_and_components.get_nth_entity(1);

        let position = entities_and_components
            .try_get_component::<Position>(first_added_entity.unwrap())
            .unwrap();
        let position_2 = entities_and_components
            .try_get_component::<Position>(second_added_entity.unwrap())
            .unwrap();

        assert_eq!(position.x, 0.0);
        assert_eq!(position.y, 1.0);
        assert_eq!(position_2.x, 1.0);
        assert_eq!(position_2.y, 0.0);
    }
}

const NUM_ENTITIES: usize = 100;
const NUM_RUNS: usize = 100;

#[derive(Debug, PartialEq, Clone)]
struct NonSendSync {
    marker: std::rc::Rc<i32>,
    tag: usize,
}

struct NonSendSyncSystem {}

impl System for NonSendSyncSystem {
    fn run(&mut self, engine: &mut EntitiesAndComponents) {
        for i in 0..engine.get_entity_count() {
            let entity = engine.get_nth_entity(i).unwrap();

            let non_send_sync = engine.try_get_component_mut::<NonSendSync>(entity).unwrap();

            non_send_sync.tag = i;
        }
    }
}

#[test]
fn test_race_conditions() {
    // the scheduler here drives the per-entity phase serially, so what
    // this checks is repeat-run determinism of mixed per-entity and
    // whole-store systems over many trials
    // a fixed linear congruence stands in for drawn randomness, so every
    // trial starts from the same values
    let mut state: u64 = 12345;
    let mut next_value = move || {
        state = state.wrapping_mul(6364136223846793005).wrapping_add(1442695040888963407);
        ((state >> 33) % 10000) as f32 / 100.0
    };

    let mut positions = vec![];
    let mut velocities = vec![];
    let mut non_send_syncs = vec![];

    for _ in 0..NUM_ENTITIES {
        positions.push(Position { x: next_value(), y: next_value() });
        velocities.push(Velocity { x: next_value(), y: next_value() });
        non_send_syncs.push(NonSendSync {
            marker: std::rc::Rc::new(7),
            tag: 0,
        });
    }

    let mut data = vec![];

    for _ in 0..NUM_RUNS {
        let mut engine = World::new();

        for i in 0..NUM_ENTITIES {
            let entity = engine.entities_and_components.add_entity();
            engine.entities_and_components.add_component_to(entity, positions[i].clone());
            engine.entities_and_components.add_component_to(entity, velocities[i].clone());
            engine.entities_and_components.add_component_to(entity, non_send_syncs[i].clone());
        }

        for i in 0..NUM_ENTITIES {
            if i % 2 == 0 {
                engine.add_system(ParallelMovementSystem {});
            } else {
                engine.add_system(MovementSystem {});
            }
        }
        engine.add_system(NonSendSyncSystem {});

        for _ in 0..5 {
            engine.run();
        }

        let mut current_run_data = vec![];
        for entity in engine.entities_and_components.get_entities() {
            let (position, velocity) = engine
                .entities_and_components
                .try_get_components::<Position, Velocity>(entity);
            let position = position.unwrap();
            let velocity = velocity.unwrap();
            let non_send_sync = engine
                .entities_and_components
                .try_get_component::<NonSendSync>(entity)
                .unwrap();

            current_run_data.push([
                position.x,
                position.y,
                velocity.x,
                velocity.y,
                non_send_sync.tag as f32,
            ]);
        }
        data.push(current_run_data);
    }

    for data_1 in &data {
        for data_2 in &data {
            if data_1 != data_2 {
                println!("Data 1: {:?} doesn't match Data 2: {:?}", data_1, data_2);
                assert_eq!(data_1, data_2);
            }
        }
    }
}

struct NonSendSyncPtr {
    ptr: std::rc::Rc<i32>,
}

#[test]
fn test_add_non_send_sync() {
    let mut world = World::new();
    let entities_and_components = &mut world.entities_and_components;

    let entity = entities_and_components.add_entity();

    entities_and_components.add_component_to(entity, NonSendSyncPtr { ptr: std::rc::Rc::new(0) });

    let non_send_sync =
        entities_and_components.try_get_component::<NonSendSyncPtr>(entity).unwrap();

    assert_eq!(*non_send_sync.ptr, 0);
}
