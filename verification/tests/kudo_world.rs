use koi::kudo::filters::{FilterTrait, With, Without};
use koi::kudo::world::{ComponentId, Entity, Filter, FilterType, KudoError, World};

const A: ComponentId = 0;
const B: ComponentId = 1;
const I32: ComponentId = 2;

fn with(id: ComponentId) -> Filter {
    Filter { component_id: id, filter_type: FilterType::With }
}

fn optional(id: ComponentId) -> Filter {
    Filter { component_id: id, filter_type: FilterType::Optional }
}

fn count(world: &World<i32>, parameters: Vec<Filter>, filters: Vec<Filter>) -> usize {
    world.query(parameters, filters).len()
}

#[test]
fn spawn() {
    let mut world = World::new();
    world.spawn(vec![(A, 0)]);
    assert_eq!(world.archetypes().len(), 2);
    world.spawn(vec![(B, 0)]);
    assert_eq!(world.archetypes().len(), 3);
    world.spawn(vec![(A, 0), (B, 0)]);
    assert_eq!(world.archetypes().len(), 4);
    world.spawn(vec![(B, 0), (A, 0)]);
    assert_eq!(world.archetypes().len(), 4);
}

#[test]
fn despawn() {
    let mut world = World::new();
    let entity_a = world.spawn(vec![(A, 0)]);
    world.spawn(vec![(B, 0)]);
    world.spawn(vec![(A, 0), (B, 0)]);
    world.spawn(vec![(B, 0), (A, 0)]);

    world.despawn(entity_a).unwrap();

    assert_eq!(count(&world, vec![with(A)], vec![]), 2);
}

#[test]
fn single_query() {
    let mut world = World::new();
    world.spawn(vec![(I32, 2)]);
    assert_eq!(world.single_component(I32), Ok(2));
    let e: Entity = world.query(vec![with(I32)], vec![]).entities_and_components()[0].0;
    let value = world.get_component_mut(e, I32).unwrap();
    assert_eq!(*value, 2);
}

#[test]
fn multi_query() {
    let mut world = World::new();
    world.spawn(vec![(A, 0)]);
    world.spawn(vec![(A, 0), (B, 0)]);
    let _ = world.query(vec![with(A)], vec![]);
}

#[test]
fn multi_option_query1() {
    let mut world = World::new();
    world.spawn(vec![(A, 0)]);
    world.spawn(vec![(B, 0)]);

    assert_eq!(count(&world, vec![optional(A), with(B)], vec![]), 1);
}

#[test]
fn multi_query_iter() {
    let mut world = World::new();
    world.spawn(vec![(A, 0)]);
    world.spawn(vec![(A, 0), (B, 0)]);
    let q = world.query(vec![with(A)], vec![]);
    for _ in q.iter() {}

    let entities: Vec<Entity> =
        world.query(vec![with(A)], vec![]).entities_and_components().into_iter().map(|(e, _)| e).collect();
    for e in entities {
        let _ = world.get_component_mut(e, A).unwrap();
    }
}

#[test]
fn system_add() {
    let mut world = World::new();
    world.spawn(vec![(A, 0)]);

    assert!(world.single_component(A).is_ok());

    let mut x = 0;
    if world.single_component(A).is_ok() {
        x += 1;
        println!("X: {:?}", x);
    }
    assert_eq!(x, 1);
}

#[test]
fn exclusive_system() {
    let mut world = World::new();
    world.spawn(vec![(A, 0)]);
    let exclusive = |w: &mut World<i32>| w.query(vec![with(A)], vec![]).len();
    assert_eq!(exclusive(&mut world), 1);
}

#[test]
fn get_components() {
    let mut world = World::new();
    let entity_a = world.spawn(vec![(A, 0)]);
    let entity_b = world.spawn(vec![(B, 0)]);

    let query = world.query(vec![with(A)], vec![]);
    query.get_entity_components(entity_a).unwrap();
    assert!(query.get_entity_components(entity_b).is_none());
}

#[test]
fn query_with_one_component() {
    let mut world = World::new();
    let _ = world.spawn(vec![(A, 0)]);
    assert_eq!(count(&world, vec![with(A)], vec![]), 1);
}

#[test]
fn add_component0() {
    let mut world = World::new();
    let entity = world.spawn(vec![(A, 0)]);
    world.add_component(entity, B, 0).unwrap();

    assert_eq!(count(&world, vec![with(A), with(B)], vec![]), 1);
}

#[test]
fn add_component1() {
    let mut world = World::new();
    let entity_a = world.spawn(vec![(A, 0)]);
    let _ = world.spawn(vec![(A, 0), (B, 0)]);

    world.add_component(entity_a, B, 0).unwrap();

    assert_eq!(count(&world, vec![with(A), with(B)], vec![]), 2);
}

#[test]
fn remove_component0() {
    let mut world = World::new();
    let entity = world.spawn(vec![(A, 0), (B, 0)]);
    world.remove_component(entity, B).unwrap();

    assert_eq!(count(&world, vec![with(A)], vec![]), 1);
}

#[test]
fn remove_component1() {
    let mut world = World::new();
    let entity_a = world.spawn(vec![(A, 0), (B, 0)]);
    let _ = world.spawn(vec![(A, 0)]);

    world.remove_component(entity_a, B).unwrap();

    assert_eq!(count(&world, vec![with(A)], vec![]), 2);
}

#[test]
fn remove_component2() {
    let mut world = World::new();
    let entity = world.spawn(vec![(A, 0)]);
    world.remove_component(entity, A).unwrap();
    world.add_component(entity, B, 0).unwrap();

    assert_eq!(count(&world, vec![with(B)], vec![]), 1);
}

#[test]
fn mutable_closure() {
    let mut world = World::new();
    let _ = world.spawn(vec![(A, 0)]);
    let _ = world.spawn(vec![(A, 0)]);

    let mut i = 0;
    {
        let query = world.query(vec![with(A)], vec![]);
        for _ in query.iter() {
            i += 1;
        }
    }
    assert!(i == 2);
}

#[test]
fn system_with_return() {
    let mut world = World::new();
    let _ = world.spawn(vec![(A, 0)]);
    let system = |w: &World<i32>| {
        let _ = w.query(vec![with(A)], vec![]);
        100
    };
    assert_eq!(system(&world), 100);
}

#[test]
fn clone_world() {
    let mut world = World::new();
    let _ = world.spawn(vec![(A, 0)]);
    let cloned_world = world.clone_world();
    assert!(cloned_world.single_component(A).is_ok());
}

#[test]
fn add_world_to_world0() {
    let mut world = World::new();
    let _ = world.spawn(vec![(A, 0)]);
    let _ = world.spawn(vec![(B, 0)]);

    let mut cloned_world = world.clone_world();
    world.add_world(&mut cloned_world);

    assert_eq!(count(&world, vec![with(A)], vec![]), 2);
}

#[test]
fn add_world_to_world1() {
    let mut world = World::new();
    let _ = world.spawn(vec![(A, 0)]);
    let _ = world.spawn(vec![(B, 0)]);

    let mut world_b = World::new();
    world_b.spawn(vec![(A, 0), (B, 0)]);

    world.add_world(&mut world_b);

    assert_eq!(count(&world, vec![with(A)], vec![]), 2);
}

#[test]
fn no_matching_component() {
    let world: World<i32> = World::new();
    assert_eq!(world.single_component(A), Err(KudoError::NoMatchingComponent));
}

#[test]
fn get_component_mut() {
    let mut world = World::new();
    let a = world.spawn(vec![(A, 0)]);
    let _ = world.get_component_mut(a, A).unwrap();
}

#[test]
fn extra_filters() {
    let mut world = World::new();
    world.spawn(vec![(A, 0)]);
    world.spawn(vec![(A, 0), (B, 0)]);
    let mut filters = Vec::new();
    Without { component_id: B }.append_filters(&mut filters);
    assert_eq!(count(&world, vec![with(A)], filters), 1);
}

#[test]
fn with_filter_appends_one_condition() {
    let mut filters = Vec::new();
    With { component_id: A }.append_filters(&mut filters);
    (With { component_id: B }, Without { component_id: I32 }).append_filters(&mut filters);
    assert_eq!(filters.len(), 3);
    assert_eq!(filters[0], with(A));
    assert_eq!(filters[2], Filter { component_id: I32, filter_type: FilterType::Without });
}

#[test]
fn get_component_mut_writes_through() {
    let mut world = World::new();
    let e = world.spawn(vec![(A, 1), (B, 5)]);
    *world.get_component_mut(e, B).unwrap() = 9;
    assert_eq!(world.get_component(e, B), Some(9));
    assert_eq!(world.get_component(e, A), Some(1));
    assert!(world.get_component_mut(e, I32).is_none());
}

#[test]
fn despawned_entity_is_missing() {
    let mut world = World::new();
    let e = world.spawn(vec![(A, 1)]);
    world.despawn(e).unwrap();
    assert_eq!(world.despawn(e), Err(KudoError::EntityMissing));
    assert_eq!(world.add_component(e, B, 0), Err(KudoError::EntityMissing));
    assert!(world.get_component(e, A).is_none());
}

#[test]
fn spawn_reuses_the_index_freed_last_with_a_new_generation() {
    let mut world: World<i32> = World::new();
    let a = world.spawn(vec![(A, 1)]);
    let b = world.spawn(vec![(B, 2)]);
    assert_eq!((a.index, a.generation), (0, 0));
    assert_eq!((b.index, b.generation), (1, 0));
    world.despawn(a).unwrap();
    world.despawn(b).unwrap();
    let c = world.spawn(vec![(A, 3)]);
    assert_eq!((c.index, c.generation), (1, 1));
    let d = world.spawn(vec![]);
    assert_eq!((d.index, d.generation), (0, 1));
    let e = world.spawn(vec![]);
    assert_eq!((e.index, e.generation), (2, 0));
}
