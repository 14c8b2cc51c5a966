use hecs::World;
use physics_sandbox::components::physics::AccelerationComponent;
use physics_sandbox::components::physics::CollisionComponent;
use physics_sandbox::components::physics::CollisionType;
use physics_sandbox::components::physics::MassComponent;
use physics_sandbox::components::physics::PositionComponent;
use physics_sandbox::components::physics::SizeComponent;
use physics_sandbox::components::physics::VelocityComponent;
use physics_sandbox::scalar::Scalar;
use physics_sandbox::systems::broad_phase;
use physics_sandbox::systems::can_exchange;
use physics_sandbox::systems::select;
use physics_sandbox::systems::Role;
use physics_sandbox::world::Components;
use physics_sandbox::systems::check_collision;
use physics_sandbox::systems::colliders;
use physics_sandbox::systems::collision_system;
use physics_sandbox::systems::pair_kind;
use physics_sandbox::systems::Collider;
use physics_sandbox::systems::Contact;

fn position_at(x: f32, y: f32) -> PositionComponent {
    PositionComponent::new(Scalar::from_bits(x.to_bits()), Scalar::from_bits(y.to_bits()))
}

fn collider_at(id: u64, x: f32, y: f32, width: u32, height: u32) -> Collider {
    Collider { id, position: position_at(x, y), size: SizeComponent::new(width, height) }
}

fn unordered(pairs: &[(usize, usize)]) -> Vec<(usize, usize)> {
    let mut sorted: Vec<(usize, usize)> =
        pairs.iter().map(|&(p, q)| if p < q { (p, q) } else { (q, p) }).collect();
    sorted.sort();
    sorted
}

fn unordered_contacts(contacts: &[Contact]) -> Vec<(u64, u64)> {
    let mut sorted: Vec<(u64, u64)> = contacts
        .iter()
        .map(|c| if c.first < c.second { (c.first, c.second) } else { (c.second, c.first) })
        .collect();
    sorted.sort();
    sorted
}

fn spawn_box(world: &mut World, x: f32, y: f32, width: u32, height: u32) -> u64 {
    world
        .spawn((
            position_at(x, y),
            SizeComponent::new(width, height),
            MassComponent::new(Scalar::from_int(1)),
            CollisionComponent::new(CollisionType::Elastic),
        ))
        .to_bits()
        .get()
}

#[test]
fn identical_boxes_at_the_same_center_collide() {
    let p = position_at(123.0, -45.0);
    let s = SizeComponent::new(50, 50);
    assert!(check_collision((&p, &s), (&p, &s)));
    let tiny = SizeComponent::new(0, 0);
    assert!(check_collision((&p, &tiny), (&p, &tiny)));
}

#[test]
fn boxes_with_disjoint_x_ranges_never_collide() {
    let s = SizeComponent::new(50, 50);
    for y in [-1000.0f32, -25.0, 0.0, 10.0, 1000.0] {
        let left = position_at(0.0, 0.0);
        let right = position_at(51.0, y);
        assert!(!check_collision((&left, &s), (&right, &s)));
        assert!(!check_collision((&right, &s), (&left, &s)));
    }
}

#[test]
fn boxes_apart_on_y_do_not_collide() {
    let s = SizeComponent::new(50, 50);
    let upper = position_at(0.0, 0.0);
    let lower = position_at(0.0, 51.0);
    assert!(!check_collision((&upper, &s), (&lower, &s)));
    assert!(!check_collision((&lower, &s), (&upper, &s)));
}

#[test]
fn boxes_that_touch_collide() {
    let s = SizeComponent::new(50, 50);
    let left = position_at(0.0, 0.0);
    let right = position_at(50.0, 0.0);
    assert!(check_collision((&left, &s), (&right, &s)));
    let below = position_at(50.0, 50.0);
    assert!(check_collision((&left, &s), (&below, &s)));
}

#[test]
fn boxes_overlap_with_exact_edges() {
    // The first box spans 175..=225 on x, the second 375..=425.
    let s = SizeComponent::new(50, 50);
    let first = position_at(200.0, 0.0);
    let second = position_at(400.0, 0.0);
    assert!(!check_collision((&first, &s), (&second, &s)));
    let near = position_at(250.0, 0.0);
    assert!(check_collision((&first, &s), (&near, &s)));
    let just_off = position_at(251.0, 0.0);
    assert!(!check_collision((&first, &s), (&just_off, &s)));
}

fn next_float(x: f32) -> f32 {
    f32::from_bits(x.to_bits() + 1)
}

#[test]
fn boxes_are_tested_at_their_exact_edges() {
    // The ranges -1..=1 and 1.5..=3.5 are apart.
    let two = SizeComponent::new(2, 2);
    let origin = position_at(0.0, 0.0);
    assert!(!check_collision((&origin, &two), (&position_at(2.5, 0.0), &two)));
    assert!(!check_collision((&position_at(2.5, 0.0), &two), (&origin, &two)));
    assert!(!check_collision((&origin, &two), (&position_at(0.0, 2.5), &two)));
    assert!(check_collision((&origin, &two), (&position_at(2.0, 0.0), &two)));
    assert!(!check_collision((&origin, &two), (&position_at(next_float(2.0), 0.0), &two)));
    assert!(check_collision((&origin, &two), (&position_at(-2.0, -2.0), &two)));
    assert!(!check_collision((&origin, &two), (&position_at(-2.0, -next_float(2.0)), &two)));
}

#[test]
fn odd_extents_reach_half_a_unit_further() {
    // Two boxes of 3 by 3 at 0 and at 3 touch at 1.5.
    let odd = SizeComponent::new(3, 3);
    let origin = position_at(0.0, 0.0);
    assert!(check_collision((&origin, &odd), (&position_at(3.0, 0.0), &odd)));
    assert!(check_collision((&origin, &odd), (&position_at(3.0, 3.0), &odd)));
    assert!(!check_collision((&origin, &odd), (&position_at(next_float(3.0), 0.0), &odd)));
    assert!(!check_collision((&origin, &odd), (&position_at(3.0, next_float(3.0)), &odd)));
    // A width of 51 reaches 25.5 to each side, one of 50 reaches 25.
    let wide = SizeComponent::new(51, 51);
    let even = SizeComponent::new(50, 50);
    assert!(check_collision((&origin, &wide), (&position_at(50.5, 0.0), &even)));
    assert!(!check_collision((&origin, &wide), (&position_at(next_float(50.5), 0.0), &even)));
    assert!(!check_collision((&origin, &even), (&position_at(50.5, 0.0), &even)));
}

#[test]
fn fractional_positions_are_not_rounded() {
    let unit = SizeComponent::new(1, 1);
    let a = position_at(10.9, 0.0);
    assert!(check_collision((&a, &unit), (&position_at(10.1, 0.9), &unit)));
    assert!(check_collision((&a, &unit), (&position_at(11.0, 0.0), &unit)));
    assert!(!check_collision((&a, &unit), (&position_at(11.95, 0.0), &unit)));
    let point = SizeComponent::new(0, 0);
    assert!(check_collision((&a, &point), (&a, &point)));
    assert!(!check_collision((&a, &point), (&position_at(next_float(10.9), 0.0), &point)));
    assert!(!check_collision((&a, &point), (&position_at(10.0, 0.0), &point)));
    // Numbers far below one count too.
    let tiny = position_at(1.0e-40, 0.0);
    let zero = position_at(0.0, 0.0);
    assert!(!check_collision((&tiny, &point), (&zero, &point)));
    assert!(check_collision((&zero, &point), (&position_at(-0.0, 0.0), &point)));
    assert!(check_collision((&tiny, &unit), (&position_at(1.0, 0.0), &unit)));
    assert!(!check_collision((&tiny, &unit), (&position_at(-1.0, 0.0), &unit)));
    assert!(check_collision((&zero, &unit), (&position_at(-1.0, 0.0), &unit)));
}

#[test]
fn the_test_agrees_with_exact_arithmetic_on_many_boxes() {
    let mut seed: u32 = 99;
    let mut next = move || {
        seed = seed.wrapping_mul(1_664_525).wrapping_add(1_013_904_223);
        seed >> 8
    };
    for _ in 0..20_000 {
        // Positions in quarters and sizes up to 7 keep `f64` exact.
        let x1 = (next() % 64) as f32 / 4.0 - 8.0;
        let y1 = (next() % 64) as f32 / 4.0 - 8.0;
        let x2 = (next() % 64) as f32 / 4.0 - 8.0;
        let y2 = (next() % 64) as f32 / 4.0 - 8.0;
        let s1 = SizeComponent::new(next() % 8, next() % 8);
        let s2 = SizeComponent::new(next() % 8, next() % 8);
        let on_x = ((x1 - x2) as f64).abs() <= (s1.width + s2.width) as f64 / 2.0;
        let on_y = ((y1 - y2) as f64).abs() <= (s1.height + s2.height) as f64 / 2.0;
        assert_eq!(
            check_collision((&position_at(x1, y1), &s1), (&position_at(x2, y2), &s2)),
            on_x && on_y,
            "boxes {s1:?} at ({x1}, {y1}) and {s2:?} at ({x2}, {y2})"
        );
    }
}

#[test]
fn extreme_boxes_do_not_overflow() {
    // The widest box reaches 2147483647.5 to each side of its centre.
    let huge = SizeComponent::new(u32::MAX, u32::MAX);
    let left = position_at(-2_147_483_648.0, -2_147_483_648.0);
    let right = position_at(2_147_483_648.0, 2_147_483_648.0);
    let middle = position_at(0.0, 0.0);
    assert!(check_collision((&left, &huge), (&middle, &huge)));
    assert!(check_collision((&middle, &huge), (&right, &huge)));
    // The first ends at -0.5 and the second begins at 0.5.
    assert!(!check_collision((&left, &huge), (&right, &huge)));
    // Beyond 2^56 a number meets only itself.
    let far = position_at(1.0e30, 1.0e30);
    assert!(check_collision((&far, &huge), (&far, &huge)));
    assert!(!check_collision((&far, &huge), (&position_at(next_float(1.0e30), 1.0e30), &huge)));
    assert!(!check_collision((&far, &huge), (&middle, &huge)));
    assert!(!check_collision((&far, &huge), (&position_at(-1.0e30, 1.0e30), &huge)));
    let edge = position_at(72_057_594_037_927_936.0, 0.0);
    let below = position_at(72_057_589_742_960_640.0, 0.0);
    assert!(!check_collision((&edge, &huge), (&below, &huge)));
    // Numbers from 2^54 to 2^55 are 2^31 apart.
    let low = position_at(18_014_398_509_481_984.0, 0.0);
    let step = position_at(18_014_400_656_965_632.0, 0.0);
    assert!(check_collision((&low, &huge), (&step, &huge)));
    assert!(check_collision((&low, &SizeComponent::new(1, 1)), (&step, &huge)));
    assert!(!check_collision((&low, &SizeComponent::new(0, 1)), (&step, &huge)));
    let end = position_at(f32::INFINITY, 0.0);
    assert!(check_collision((&end, &huge), (&end, &huge)));
    assert!(!check_collision((&end, &huge), (&position_at(f32::MAX, 0.0), &huge)));
    assert!(!check_collision((&end, &huge), (&position_at(f32::NEG_INFINITY, 0.0), &huge)));
}

#[test]
fn broad_phase_of_nothing_is_empty() {
    assert!(broad_phase(&Vec::new()).is_empty());
    assert!(broad_phase(&vec![collider_at(1, 0.0, 0.0, 10, 10)]).is_empty());
}

#[test]
fn broad_phase_finds_pairs_that_are_not_neighbours() {
    // A wide box holds two narrow ones that do not meet each other.
    let list = vec![
        collider_at(1, 50.0, 0.0, 100, 10),
        collider_at(2, 15.0, 0.0, 10, 10),
        collider_at(3, 35.0, 0.0, 10, 10),
    ];
    assert_eq!(unordered(&broad_phase(&list)), vec![(0, 1), (0, 2)]);
}

#[test]
fn broad_phase_does_not_depend_on_the_order_of_its_input() {
    let list = vec![
        collider_at(3, 35.0, 0.0, 10, 10),
        collider_at(1, 50.0, 0.0, 100, 10),
        collider_at(4, 500.0, 0.0, 10, 10),
        collider_at(2, 15.0, 0.0, 10, 10),
    ];
    assert_eq!(unordered(&broad_phase(&list)), vec![(0, 1), (1, 3)]);
}

#[test]
fn broad_phase_ignores_y() {
    let list = vec![collider_at(1, 0.0, 0.0, 10, 10), collider_at(2, 5.0, 10_000.0, 10, 10)];
    assert_eq!(unordered(&broad_phase(&list)), vec![(0, 1)]);
}

#[test]
fn broad_phase_reports_every_pair_of_a_pile_once() {
    let list: Vec<Collider> =
        (0..6).map(|k| collider_at(k as u64 + 1, 100.0, k as f32, 50, 50)).collect();
    let pairs = unordered(&broad_phase(&list));
    let mut expected = Vec::new();
    for p in 0..6 {
        for q in (p + 1)..6 {
            expected.push((p, q));
        }
    }
    assert_eq!(pairs, expected);
}

#[test]
fn broad_phase_agrees_with_the_test_of_every_pair() {
    let mut seed: u32 = 7;
    let mut list = Vec::new();
    for k in 0..40u64 {
        seed = seed.wrapping_mul(1_664_525).wrapping_add(1_013_904_223);
        let x = (seed >> 8) % 1000;
        seed = seed.wrapping_mul(1_664_525).wrapping_add(1_013_904_223);
        let width = (seed >> 8) % 120;
        list.push(collider_at(k + 1, x as f32, 0.0, width, 10));
    }
    let mut expected = Vec::new();
    for p in 0..list.len() {
        for q in (p + 1)..list.len() {
            let (a, b) = (&list[p], &list[q]);
            let (ax, bx) = (a.position.value.x.truncate() as i64, b.position.value.x.truncate() as i64);
            if 2 * (ax - bx).abs() <= (a.size.width + b.size.width) as i64 {
                expected.push((p, q));
            }
        }
    }
    assert_eq!(unordered(&broad_phase(&list)), expected);
}

#[test]
fn colliders_lists_the_entities_with_all_four_attributes() {
    let mut world = World::new();
    let full = spawn_box(&mut world, 10.0, 20.0, 30, 40);
    world.spawn((position_at(10.0, 20.0), SizeComponent::new(30, 40)));
    world.spawn((
        position_at(10.0, 20.0),
        SizeComponent::new(30, 40),
        CollisionComponent::new(CollisionType::Elastic),
    ));
    world.spawn((VelocityComponent::new(Scalar::zero(), Scalar::zero()),));
    let list = colliders(&mut world);
    assert_eq!(list.len(), 1);
    assert_eq!(list[0].id, full);
    assert_eq!(list[0].position, position_at(10.0, 20.0));
    assert_eq!(list[0].size, SizeComponent::new(30, 40));
    assert_eq!(world.len(), 4);
}

#[test]
fn collision_system_of_an_empty_world_finds_nothing() {
    let mut world = World::new();
    assert!(collision_system(&mut world, 800, 800).is_empty());
}

#[test]
fn collision_system_finds_the_boxes_that_meet() {
    let mut world = World::new();
    let wide = spawn_box(&mut world, 50.0, 0.0, 100, 10);
    let left = spawn_box(&mut world, 15.0, 0.0, 10, 10);
    let right = spawn_box(&mut world, 35.0, 0.0, 10, 10);
    let above = spawn_box(&mut world, 35.0, -500.0, 10, 10);
    let far = spawn_box(&mut world, 900.0, 0.0, 10, 10);
    let contacts = unordered_contacts(&collision_system(&mut world, 800, 800));
    let mut expected = vec![
        if wide < left { (wide, left) } else { (left, wide) },
        if wide < right { (wide, right) } else { (right, wide) },
    ];
    expected.sort();
    assert_eq!(contacts, expected);
    assert!(contacts.iter().all(|&(a, b)| a != above && b != above && a != far && b != far));
    assert_eq!(world.len(), 5);
}

#[test]
fn collision_system_leaves_out_entities_that_lack_an_attribute() {
    let mut world = World::new();
    let a = spawn_box(&mut world, 0.0, 0.0, 50, 50);
    let b = spawn_box(&mut world, 10.0, 10.0, 50, 50);
    // In the same place, but without a mass or without a collision kind.
    world.spawn((
        position_at(0.0, 0.0),
        SizeComponent::new(50, 50),
        CollisionComponent::new(CollisionType::Elastic),
    ));
    world.spawn((
        position_at(0.0, 0.0),
        SizeComponent::new(50, 50),
        MassComponent::new(Scalar::from_int(1)),
        AccelerationComponent::new(Scalar::zero(), Scalar::zero()),
    ));
    let contacts = unordered_contacts(&collision_system(&mut world, 800, 800));
    assert_eq!(contacts, vec![if a < b { (a, b) } else { (b, a) }]);
}

#[test]
fn collision_system_does_not_change_the_world() {
    let mut world = World::new();
    let a = spawn_box(&mut world, 0.0, 0.0, 50, 50);
    spawn_box(&mut world, 10.0, 10.0, 50, 50);
    collision_system(&mut world, 800, 800);
    let entity = hecs::Entity::from_bits(a).unwrap();
    assert_eq!(*world.get::<PositionComponent>(entity).unwrap(), position_at(0.0, 0.0));
    assert_eq!(*world.get::<SizeComponent>(entity).unwrap(), SizeComponent::new(50, 50));
    assert_eq!(world.len(), 2);
}

#[test]
fn a_pair_is_as_elastic_as_the_less_elastic_of_the_two() {
    let (elastic, inelastic, merged) = (
        CollisionType::Elastic,
        CollisionType::Inelastic,
        CollisionType::PerfectlyInelastic,
    );
    assert_eq!(pair_kind(elastic, elastic), elastic);
    assert_eq!(pair_kind(elastic, inelastic), inelastic);
    assert_eq!(pair_kind(inelastic, elastic), inelastic);
    assert_eq!(pair_kind(inelastic, inelastic), inelastic);
    assert_eq!(pair_kind(elastic, merged), merged);
    assert_eq!(pair_kind(merged, elastic), merged);
    assert_eq!(pair_kind(inelastic, merged), merged);
    assert_eq!(pair_kind(merged, inelastic), merged);
    assert_eq!(pair_kind(merged, merged), merged);
}

#[test]
fn broad_phase_proposes_boxes_that_touch_at_half_a_unit() {
    let list = vec![
        collider_at(1, 0.0, 0.0, 3, 3),
        collider_at(2, 3.0, 100.0, 3, 3),
        collider_at(3, 6.25, 0.0, 3, 3),
    ];
    assert_eq!(unordered(&broad_phase(&list)), vec![(0, 1)]);
}

#[test]
fn broad_phase_proposes_every_far_pair_that_meets() {
    let list = vec![
        collider_at(1, 1.0e30, 0.0, 10, 10),
        collider_at(2, 0.0, 0.0, 10, 10),
        collider_at(3, 1.0e30, 5.0, 10, 10),
        collider_at(4, -1.0e30, 0.0, 10, 10),
    ];
    let pairs = unordered(&broad_phase(&list));
    assert!(pairs.contains(&(0, 2)));
    assert!(!pairs.contains(&(0, 1)));
    assert!(!pairs.contains(&(1, 3)));
    assert!(!pairs.contains(&(0, 3)));
}

#[test]
fn collision_system_finds_boxes_at_fractional_positions() {
    let mut world = World::new();
    let a = spawn_box(&mut world, 0.0, 0.0, 3, 3);
    let b = spawn_box(&mut world, 3.0, -3.0, 3, 3);
    let c = spawn_box(&mut world, 5.5, -0.5, 2, 2);
    let d = spawn_box(&mut world, -2.75, 0.25, 2, 2);
    let mut expected = vec![
        if a < b { (a, b) } else { (b, a) },
        if b < c { (b, c) } else { (c, b) },
    ];
    expected.sort();
    assert_eq!(unordered_contacts(&collision_system(&mut world, 800, 800)), expected);
    let _ = d;
}

#[test]
fn collision_system_agrees_with_exact_arithmetic_on_many_boxes() {
    let mut seed: u32 = 4242;
    let mut next = move || {
        seed = seed.wrapping_mul(1_664_525).wrapping_add(1_013_904_223);
        seed >> 8
    };
    let mut world = World::new();
    let mut boxes = Vec::new();
    for _ in 0..60 {
        let x = (next() % 400) as f32 / 4.0;
        let y = (next() % 400) as f32 / 4.0;
        let (w, h) = (next() % 12, next() % 12);
        boxes.push((spawn_box(&mut world, x, y, w, h), x, y, w, h));
    }
    let mut expected = Vec::new();
    for p in 0..boxes.len() {
        for q in (p + 1)..boxes.len() {
            let (a, ax, ay, aw, ah) = boxes[p];
            let (b, bx, by, bw, bh) = boxes[q];
            let on_x = ((ax - bx) as f64).abs() <= (aw + bw) as f64 / 2.0;
            let on_y = ((ay - by) as f64).abs() <= (ah + bh) as f64 / 2.0;
            if on_x && on_y {
                expected.push(if a < b { (a, b) } else { (b, a) });
            }
        }
    }
    expected.sort();
    assert!(!expected.is_empty());
    assert_eq!(unordered_contacts(&collision_system(&mut world, 800, 800)), expected);
}

#[test]
fn a_contact_is_resolved_when_both_have_a_velocity_and_a_sound_mass() {
    let moving = |mass: f32| Components {
        position: Some(position_at(0.0, 0.0)),
        velocity: Some(VelocityComponent::new(Scalar::zero(), Scalar::zero())),
        acceleration: None,
        mass: Some(MassComponent::new(Scalar::from_bits(mass.to_bits()))),
        size: Some(SizeComponent::new(1, 1)),
        collision: Some(CollisionComponent::new(CollisionType::Elastic)),
        render: None,
    };
    let sound = moving(1.0);
    assert!(can_exchange(sound, moving(2.5)));
    assert!(!can_exchange(sound, moving(0.0)));
    assert!(!can_exchange(moving(-1.0), sound));
    assert!(!can_exchange(sound, moving(f32::INFINITY)));
    assert!(!can_exchange(moving(f32::NAN), sound));
    let still = Components { velocity: None, ..sound };
    assert!(!can_exchange(still, sound));
    assert!(!can_exchange(sound, still));
    let weightless = Components { mass: None, ..sound };
    assert!(!can_exchange(weightless, sound));
    assert!(!can_exchange(sound, weightless));
}

#[test]
fn select_lists_the_entities_that_fit_a_role() {
    let mut world = World::new();
    let boxed = spawn_box(&mut world, 1.0, 2.0, 3, 4);
    let stray = world.spawn((position_at(0.0, -9000.0),)).to_bits().get();
    world.spawn((SizeComponent::new(1, 1),));
    let ids = |rows: Vec<(u64, Components)>| {
        let mut ids: Vec<u64> = rows.iter().map(|row| row.0).collect();
        ids.sort();
        ids
    };
    assert_eq!(ids(select(&mut world, Role::Collider)), vec![boxed]);
    assert_eq!(ids(select(&mut world, Role::Stray { height: 800 })), vec![stray]);
    assert!(select(&mut world, Role::Stray { height: 901 }).is_empty());
    assert!(select(&mut world, Role::Mover).is_empty());
    assert!(select(&mut world, Role::Drawn).is_empty());
    let rows = select(&mut world, Role::Collider);
    assert_eq!(rows[0].1.position, Some(position_at(1.0, 2.0)));
    assert_eq!(rows[0].1.size, Some(SizeComponent::new(3, 4)));
    assert_eq!(world.len(), 3);
}
