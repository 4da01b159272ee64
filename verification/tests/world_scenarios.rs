use eccles::Aspect;
use eccles::ComponentManager;
use eccles::ComponentType;
use eccles::EntityBuilder;
use eccles::EntityManager;
use eccles::EntityRefMut;
use eccles::IntervalProcessor;
use eccles::Processor;
use eccles::World;

#[derive(Clone, Copy, Debug, PartialEq)]
enum GameComp {
    Position { x: i64, y: i64 },
    Velocity { vx: i64, vy: i64 },
}

fn position_key() -> ComponentType {
    ComponentType::of(1)
}

fn velocity_key() -> ComponentType {
    ComponentType::of(2)
}

/// Moves every matched entity by its velocity scaled with the delta.
struct Movement;

impl Processor<GameComp> for Movement {
    fn run(
        &mut self,
        entity: usize,
        _entities: &mut EntityManager,
        components: &mut ComponentManager<GameComp>,
        delta: u64,
    ) {
        let position = components.get(entity, position_key());
        let velocity = components.get(entity, velocity_key());
        if let (
            Some(GameComp::Position { x, y }),
            Some(GameComp::Velocity { vx, vy }),
        ) = (position, velocity)
        {
            components.set(
                entity,
                position_key(),
                GameComp::Position { x: x + vx * delta as i64, y: y + vy * delta as i64 },
            );
        }
    }
}

fn movement_aspect() -> Aspect {
    Aspect::all_of(vec![position_key(), velocity_key()])
}

/// Gives every built entity a still position and a unit velocity.
struct Spawner;

impl EntityBuilder<GameComp> for Spawner {
    fn build(
        &mut self,
        entity: EntityRefMut,
        _entities: &mut EntityManager,
        components: &mut ComponentManager<GameComp>,
    ) {
        entity
            .add(components, position_key(), GameComp::Position { x: 0, y: 0 })
            .add(components, velocity_key(), GameComp::Velocity { vx: 1, vy: 1 });
    }
}

#[test]
fn movement_processor_advances_position() {
    // Scenario: register Position and Velocity, give one entity
    // Position(1,-2) and Velocity(3,2), run one tick of one unit, and the
    // position becomes (4,0).
    let mut world: World<GameComp, Movement> = World::new();
    world.register_component(position_key());
    world.register_component(velocity_key());
    world.register_processor(Movement, movement_aspect());
    let handle = world.new_entity();
    let e = handle.entity;
    handle
        .add(&mut world.components, position_key(), GameComp::Position { x: 1, y: -2 })
        .add(&mut world.components, velocity_key(), GameComp::Velocity { vx: 3, vy: 2 })
        .enable(&mut world.entities);
    world.update(1);
    assert_eq!(
        world.components.get(e, position_key()),
        Some(GameComp::Position { x: 4, y: 0 })
    );
}

#[test]
fn add_then_set_keeps_the_latest_value() {
    // Writing the same component twice before a tick leaves the latest
    // value: the first write adds, the second overwrites in place.
    let mut world: World<GameComp, Movement> = World::new();
    world.register_component(position_key());
    let handle = world.new_entity();
    let e = handle.entity;
    handle
        .add(&mut world.components, position_key(), GameComp::Position { x: 1, y: 1 })
        .set(&mut world.components, position_key(), GameComp::Position { x: 9, y: 9 });
    assert_eq!(
        world.components.get(e, position_key()),
        Some(GameComp::Position { x: 9, y: 9 })
    );
}

#[test]
fn batch_built_entities_all_move() {
    // Scenario: build ten entities with Position(0,0) and Velocity(1,1)
    // through a batch builder, tick once, and every position is (1,1).
    let mut world: World<GameComp, Movement> = World::new();
    world.register_component(position_key());
    world.register_component(velocity_key());
    world.register_processor(Movement, movement_aspect());
    let mut builder = Spawner;
    let built = world.build_entities(10, &mut builder);
    assert_eq!(built.len(), 10);
    let mut it = world.entities();
    let mut seen = 0;
    while let Some(_) = it.next() {
        seen += 1;
    }
    assert_eq!(seen, 10);
    world.update(1);
    for e in built {
        assert_eq!(
            world.components.get(e, position_key()),
            Some(GameComp::Position { x: 1, y: 1 })
        );
    }
}

#[test]
fn deleted_entity_reports_no_components_even_after_id_reuse() {
    // Scenario: delete an entity holding two component types; both memberships
    // read false, and a fresh entity reusing the identifier also reads false
    // for both until components are added again.
    let mut world: World<GameComp, Movement> = World::new();
    world.register_component(position_key());
    world.register_component(velocity_key());
    let handle = world.new_entity();
    let e = handle.entity;
    handle
        .add(&mut world.components, position_key(), GameComp::Position { x: 1, y: 2 })
        .add(&mut world.components, velocity_key(), GameComp::Velocity { vx: 3, vy: 4 })
        .enable(&mut world.entities);
    world.remove_entity(e);
    assert!(!world.components.has(e, position_key()));
    assert!(!world.components.has(e, velocity_key()));
    let reused = world.new_entity();
    assert_eq!(reused.entity, e);
    assert!(!world.components.has(reused.entity, position_key()));
    assert!(!world.components.has(reused.entity, velocity_key()));
    reused.add(&mut world.components, position_key(), GameComp::Position { x: 5, y: 5 });
    assert!(world.components.has(e, position_key()));
}

#[test]
fn aspect_all_of_requires_every_type() {
    let mut world: World<GameComp, Movement> = World::new();
    world.register_component(position_key());
    world.register_component(velocity_key());
    let both = world.new_entity();
    let both = both
        .add(&mut world.components, position_key(), GameComp::Position { x: 0, y: 0 })
        .add(&mut world.components, velocity_key(), GameComp::Velocity { vx: 0, vy: 0 });
    let only_position = world.new_entity();
    let only_position = only_position.add(
        &mut world.components,
        position_key(),
        GameComp::Position { x: 0, y: 0 },
    );
    let aspect = movement_aspect();
    assert!(aspect.check(both.entity, &world.components));
    assert!(!aspect.check(only_position.entity, &world.components));
}

#[test]
fn aspect_any_of_requires_at_least_one() {
    let mut world: World<GameComp, Movement> = World::new();
    world.register_component(position_key());
    world.register_component(velocity_key());
    let only_velocity = world.new_entity();
    let only_velocity = only_velocity.add(
        &mut world.components,
        velocity_key(),
        GameComp::Velocity { vx: 0, vy: 0 },
    );
    let bare = world.new_entity();
    let aspect = Aspect::any_of(vec![position_key(), velocity_key()]);
    assert!(aspect.check(only_velocity.entity, &world.components));
    assert!(!aspect.check(bare.entity, &world.components));
}

#[test]
fn aspect_with_unregistered_type_matches_nothing() {
    let world: World<GameComp, Movement> = World::new();
    let aspect = Aspect::all_of(vec![ComponentType::of(99)]);
    assert!(!aspect.check(0, &world.components));
}

#[test]
fn inactive_entities_are_not_processed() {
    let mut world: World<GameComp, Movement> = World::new();
    world.register_component(position_key());
    world.register_component(velocity_key());
    world.register_processor(Movement, movement_aspect());
    let handle = world.new_entity();
    let e = handle.entity;
    handle
        .add(&mut world.components, position_key(), GameComp::Position { x: 0, y: 0 })
        .add(&mut world.components, velocity_key(), GameComp::Velocity { vx: 5, vy: 5 });
    // Never enabled: the processor must not see it.
    world.update(1);
    assert_eq!(
        world.components.get(e, position_key()),
        Some(GameComp::Position { x: 0, y: 0 })
    );
}

#[test]
fn interval_processor_fires_with_the_interval_as_delta() {
    // An interval wrapper accumulates elapsed time and forwards the
    // configured interval, not the raw frame delta, once enough accumulated.
    let mut world: World<GameComp, IntervalProcessor<Movement>> = World::new();
    world.register_component(position_key());
    world.register_component(velocity_key());
    world.register_processor(IntervalProcessor::new(Movement, 2), movement_aspect());
    let handle = world.new_entity();
    let e = handle.entity;
    handle
        .add(&mut world.components, position_key(), GameComp::Position { x: 0, y: 0 })
        .add(&mut world.components, velocity_key(), GameComp::Velocity { vx: 1, vy: 0 })
        .enable(&mut world.entities);
    // Accumulated 1: not past the interval of 2, nothing runs.
    world.update(1);
    assert_eq!(
        world.components.get(e, position_key()),
        Some(GameComp::Position { x: 0, y: 0 })
    );
    // Accumulated 3: past the interval; the processor runs once with delta 2.
    world.update(2);
    assert_eq!(
        world.components.get(e, position_key()),
        Some(GameComp::Position { x: 2, y: 0 })
    );
}

#[test]
fn interval_step_accumulates_and_reduces() {
    let mut wrapped = IntervalProcessor::new(Movement, 3);
    assert!(!wrapped.step(1));
    assert!(!wrapped.step(2));
    assert!(wrapped.step(2));
    assert_eq!(wrapped.since_last, 2);
    assert!(wrapped.step(2));
    assert_eq!(wrapped.since_last, 1);
}

#[test]
fn build_entity_creates_an_active_filled_entity() {
    let mut world: World<GameComp, Movement> = World::new();
    world.register_component(position_key());
    world.register_component(velocity_key());
    let mut builder = Spawner;
    let e = world.build_entity(&mut builder);
    assert!(world.entities.is_active(e));
    assert_eq!(
        world.components.get(e, position_key()),
        Some(GameComp::Position { x: 0, y: 0 })
    );
    assert_eq!(
        world.components.get(e, velocity_key()),
        Some(GameComp::Velocity { vx: 1, vy: 1 })
    );
}

#[test]
fn later_processors_see_changes_of_the_same_tick() {
    // The match phase runs immediately before each processor's dispatch, so
    // a change made by an earlier processor in the same tick is visible to
    // the ones after it.
    struct Tagger;
    impl Processor<GameComp> for Tagger {
        fn run(
            &mut self,
            entity: usize,
            _entities: &mut EntityManager,
            components: &mut ComponentManager<GameComp>,
            _delta: u64,
        ) {
            if components.get(entity, velocity_key()).is_none() {
                components.add(entity, velocity_key(), GameComp::Velocity { vx: 2, vy: 0 });
            }
        }
    }
    enum Stage {
        Tag(Tagger),
        Move(Movement),
    }
    impl Processor<GameComp> for Stage {
        fn run(
            &mut self,
            entity: usize,
            entities: &mut EntityManager,
            components: &mut ComponentManager<GameComp>,
            delta: u64,
        ) {
            match self {
                Stage::Tag(p) => p.run(entity, entities, components, delta),
                Stage::Move(p) => p.run(entity, entities, components, delta),
            }
        }
    }
    let mut world: World<GameComp, Stage> = World::new();
    world.register_component(position_key());
    world.register_component(velocity_key());
    world.register_processor(Stage::Tag(Tagger), Aspect::all_of(vec![position_key()]));
    world.register_processor(Stage::Move(Movement), movement_aspect());
    let handle = world.new_entity();
    let e = handle.entity;
    handle
        .add(&mut world.components, position_key(), GameComp::Position { x: 0, y: 0 })
        .enable(&mut world.entities);
    world.update(1);
    // The tagger added a velocity; the mover, matched later in the same
    // tick, already moved the entity by it.
    assert_eq!(
        world.components.get(e, position_key()),
        Some(GameComp::Position { x: 2, y: 0 })
    );
}

#[test]
fn world_hands_out_entity_handles() {
    let mut world: World<GameComp, Movement> = World::with_capacity(2);
    world.register_component(position_key());
    let e = world.new_entity().entity;
    world
        .get_entity_mut(e)
        .add(&mut world.components, position_key(), GameComp::Position { x: 8, y: 9 })
        .enable(&mut world.entities);
    let reader = world.get_entity(e);
    assert_eq!(reader.entity, e);
    assert!(reader.is_active(&world.entities));
    assert_eq!(
        reader.get(&world.components, position_key()),
        Some(GameComp::Position { x: 8, y: 9 })
    );
}

#[test]
fn aspect_new_combines_all_and_any() {
    let mut world: World<GameComp, Movement> = World::new();
    world.register_component(position_key());
    world.register_component(velocity_key());
    let aspect = Aspect::new(vec![position_key()], vec![velocity_key()]);
    let full = world.new_entity();
    let full = full
        .add(&mut world.components, position_key(), GameComp::Position { x: 0, y: 0 })
        .add(&mut world.components, velocity_key(), GameComp::Velocity { vx: 0, vy: 0 });
    let half = world.new_entity();
    let half = half.add(
        &mut world.components,
        position_key(),
        GameComp::Position { x: 0, y: 0 },
    );
    assert!(aspect.check(full.entity, &world.components));
    assert!(!aspect.check(half.entity, &world.components));
}

#[test]
fn tick_refreshes_the_first_processors_matched_set() {
    // The match phase replaces the cached set with exactly the active
    // entities the aspect matches, before the processor runs.
    let mut world: World<GameComp, Movement> = World::new();
    world.register_component(position_key());
    world.register_component(velocity_key());
    world.register_processor(Movement, movement_aspect());
    let full = world.new_entity();
    let full = full
        .add(&mut world.components, position_key(), GameComp::Position { x: 0, y: 0 })
        .add(&mut world.components, velocity_key(), GameComp::Velocity { vx: 1, vy: 1 })
        .enable(&mut world.entities);
    let half = world.new_entity();
    half.add(&mut world.components, position_key(), GameComp::Position { x: 0, y: 0 })
        .enable(&mut world.entities);
    assert_eq!(world.processors.borrow(0).entities, vec![]);
    world.update(1);
    assert_eq!(world.processors.borrow(0).entities, vec![full.entity]);
}
