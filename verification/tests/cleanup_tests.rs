use hecs::World;
use physics_sandbox::components::physics::PositionComponent;
use physics_sandbox::components::physics::SizeComponent;
use physics_sandbox::components::physics::VelocityComponent;
use physics_sandbox::scalar::Scalar;
use physics_sandbox::systems::cleanup_system;
use physics_sandbox::systems::is_out_of_bounds;

fn cleanup_position(x: f32, y: f32) -> PositionComponent {
    PositionComponent::new(Scalar::from_bits(x.to_bits()), Scalar::from_bits(y.to_bits()))
}

fn previous_float(x: f32) -> f32 {
    f32::from_bits(x.to_bits() - 1)
}

#[test]
fn out_of_bounds_starts_at_ten_heights() {
    assert!(is_out_of_bounds(cleanup_position(0.0, 8000.0), 800));
    assert!(is_out_of_bounds(cleanup_position(0.0, -8000.0), 800));
    assert!(is_out_of_bounds(cleanup_position(0.0, 9999.0), 800));
    assert!(!is_out_of_bounds(cleanup_position(0.0, previous_float(8000.0)), 800));
    assert!(!is_out_of_bounds(cleanup_position(0.0, -previous_float(8000.0)), 800));
    assert!(!is_out_of_bounds(cleanup_position(0.0, 0.0), 800));
    assert!(!is_out_of_bounds(cleanup_position(1.0e9, 0.0), 800));
}

#[test]
fn out_of_bounds_with_special_values() {
    assert!(is_out_of_bounds(cleanup_position(0.0, f32::INFINITY), u32::MAX));
    assert!(is_out_of_bounds(cleanup_position(0.0, f32::NEG_INFINITY), u32::MAX));
    assert!(!is_out_of_bounds(cleanup_position(0.0, f32::NAN), 800));
    assert!(!is_out_of_bounds(cleanup_position(0.0, f32::NAN), 0));
    assert!(is_out_of_bounds(cleanup_position(0.0, 0.0), 0));
    assert!(is_out_of_bounds(cleanup_position(0.0, -0.0), 0));
    assert!(!is_out_of_bounds(cleanup_position(0.0, 4.0e10), u32::MAX));
    assert!(is_out_of_bounds(cleanup_position(0.0, 4.3e10), u32::MAX));
}

#[test]
fn cleanup_removes_an_entity_far_below() {
    let mut world = World::new();
    let entity = world.spawn((cleanup_position(0.0, 9999.0),));
    let removed = cleanup_system(&mut world, 800, 800);
    assert_eq!(removed, vec![entity.to_bits().get()]);
    assert!(!world.contains(entity));
    assert_eq!(world.len(), 0);
}

#[test]
fn cleanup_removes_at_ten_heights_and_keeps_just_inside() {
    let mut world = World::new();
    let at_edge = world.spawn((cleanup_position(5.0, 8000.0),));
    let inside = world.spawn((cleanup_position(5.0, previous_float(8000.0)),));
    let at_upper_edge = world.spawn((cleanup_position(5.0, -8000.0),));
    let inside_upper = world.spawn((cleanup_position(5.0, -previous_float(8000.0)),));
    let mut removed = cleanup_system(&mut world, 800, 800);
    removed.sort();
    let mut expected = vec![at_edge.to_bits().get(), at_upper_edge.to_bits().get()];
    expected.sort();
    assert_eq!(removed, expected);
    assert!(!world.contains(at_edge));
    assert!(!world.contains(at_upper_edge));
    assert!(world.contains(inside));
    assert!(world.contains(inside_upper));
}

#[test]
fn cleanup_goes_by_y_and_by_the_height_only() {
    let mut world = World::new();
    let far_right = world.spawn((cleanup_position(1.0e9, 0.0),));
    let low = world.spawn((cleanup_position(0.0, 100.0),));
    assert!(cleanup_system(&mut world, 1, 11).is_empty());
    assert!(world.contains(far_right));
    assert!(world.contains(low));
    assert_eq!(cleanup_system(&mut world, 100_000, 10), vec![low.to_bits().get()]);
    assert!(world.contains(far_right));
}

#[test]
fn cleanup_keeps_entities_without_a_position() {
    let mut world = World::new();
    let no_position = world.spawn((
        VelocityComponent::new(Scalar::zero(), Scalar::from_int(100_000)),
        SizeComponent::new(1, 1),
    ));
    let bare = world.spawn(());
    assert!(cleanup_system(&mut world, 800, 800).is_empty());
    assert!(world.contains(no_position));
    assert!(world.contains(bare));
}

#[test]
fn cleanup_removes_an_entity_with_all_its_attributes() {
    let mut world = World::new();
    let doomed = world.spawn((
        cleanup_position(0.0, -90_000.0),
        VelocityComponent::new(Scalar::zero(), Scalar::zero()),
        SizeComponent::new(50, 50),
    ));
    let kept = world.spawn((
        cleanup_position(0.0, 10.0),
        VelocityComponent::new(Scalar::zero(), Scalar::zero()),
        SizeComponent::new(50, 50),
    ));
    cleanup_system(&mut world, 800, 800);
    assert!(world.get::<VelocityComponent>(doomed).is_err());
    assert!(world.get::<SizeComponent>(doomed).is_err());
    assert_eq!(*world.get::<PositionComponent>(kept).unwrap(), cleanup_position(0.0, 10.0));
    assert_eq!(*world.get::<SizeComponent>(kept).unwrap(), SizeComponent::new(50, 50));
    assert_eq!(world.len(), 1);
}

#[test]
fn cleanup_of_many_removes_exactly_the_far_ones() {
    let mut world = World::new();
    let mut far = Vec::new();
    let mut near = Vec::new();
    for k in 0..200 {
        let y = (k as f32) * 100.0;
        let entity = world.spawn((cleanup_position(0.0, y),));
        if y >= 8000.0 {
            far.push(entity);
        } else {
            near.push(entity);
        }
    }
    let mut removed = cleanup_system(&mut world, 800, 800);
    removed.sort();
    let mut expected: Vec<u64> = far.iter().map(|e| e.to_bits().get()).collect();
    expected.sort();
    assert_eq!(removed, expected);
    assert!(far.iter().all(|&e| !world.contains(e)));
    assert!(near.iter().all(|&e| world.contains(e)));
    assert!(cleanup_system(&mut world, 800, 800).is_empty());
}

#[test]
fn cleanup_with_a_height_of_zero_removes_every_position_but_a_nan() {
    let mut world = World::new();
    let origin = world.spawn((cleanup_position(0.0, 0.0),));
    let nowhere = world.spawn((cleanup_position(0.0, f32::NAN),));
    cleanup_system(&mut world, 800, 0);
    assert!(!world.contains(origin));
    assert!(world.contains(nowhere));
}
