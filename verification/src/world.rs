//! The entity store.
//!
//! Entities live in a `hecs::World`. The library reads and changes the
//! world only through the functions of this module, whose contracts speak
//! of `world_contents`: the entities of a world, each with the attributes
//! it holds. An entity is named by the 64 bits of its handle.

use vstd::prelude::*;
use hecs::World;
use crate::components::physics::AccelerationComponent;
use crate::components::physics::CollisionComponent;
use crate::components::physics::MassComponent;
use crate::components::physics::PositionComponent;
use crate::components::physics::SizeComponent;
use crate::components::physics::VelocityComponent;
use crate::components::render::RenderComponent;

verus! {

#[verifier::external_type_specification]
#[verifier::external_body]
pub struct ExWorld(hecs::World);

/// The attributes of one entity. Each may be there or not, whatever the
/// others are.
#[derive(Debug, Clone, Copy)]
pub struct Components {
    pub position: Option<PositionComponent>,
    pub velocity: Option<VelocityComponent>,
    pub acceleration: Option<AccelerationComponent>,
    pub mass: Option<MassComponent>,
    pub size: Option<SizeComponent>,
    pub collision: Option<CollisionComponent>,
    pub render: Option<RenderComponent>,
}

impl Components {
    /// No attribute at all.
    pub open spec fn none() -> Components {
        Components {
            position: None,
            velocity: None,
            acceleration: None,
            mass: None,
            size: None,
            collision: None,
            render: None,
        }
    }

    /// The entity moves: it has a position, a velocity, an acceleration
    /// and a mass.
    pub open spec fn moves(self) -> bool {
        self.position.is_some() && self.velocity.is_some() && self.acceleration.is_some()
            && self.mass.is_some()
    }

    /// The entity takes part in collisions: it has a position, a size, a
    /// mass and a collision kind.
    pub open spec fn collides(self) -> bool {
        self.position.is_some() && self.size.is_some() && self.mass.is_some()
            && self.collision.is_some()
    }

    /// The entity is drawn: it has a colour and a position.
    pub open spec fn renders(self) -> bool {
        self.render.is_some() && self.position.is_some()
    }

    /// The attributes of an entity that moves and is drawn.
    pub open spec fn mover(
        position: PositionComponent,
        velocity: VelocityComponent,
        acceleration: AccelerationComponent,
        mass: MassComponent,
        render: RenderComponent,
    ) -> Components {
        Components {
            position: Some(position),
            velocity: Some(velocity),
            acceleration: Some(acceleration),
            mass: Some(mass),
            size: None,
            collision: None,
            render: Some(render),
        }
    }

    /// These attributes with a size and a collision kind put in.
    pub open spec fn with_collider(
        self,
        size: SizeComponent,
        collision: CollisionComponent,
    ) -> Components {
        Components { size: Some(size), collision: Some(collision), ..self }
    }

    /// These attributes with another position and velocity.
    pub open spec fn with_motion(
        self,
        position: PositionComponent,
        velocity: VelocityComponent,
    ) -> Components {
        Components { position: Some(position), velocity: Some(velocity), ..self }
    }
}

/// The entities that a world holds, by the bits of their handles, each
/// with its attributes. An entity whose identifier was reserved and that
/// was given nothing yet is in the map, without attributes.
pub uninterp spec fn world_contents(w: World) -> Map<u64, Components>;

/// The contents of a world without entities.
pub open spec fn no_entities() -> Map<u64, Components> {
    Map::empty()
}

/// The most entities that a world can hold.
pub const WORLD_CAPACITY: u32 = u32::MAX;

/// `rows` lists entities of `contents`, none twice, each with its
/// attributes, and leaves none out that has an attribute.
pub open spec fn is_listing(rows: Seq<(u64, Components)>, contents: Map<u64, Components>) -> bool {
    &&& forall|i: int|
        0 <= i < rows.len() ==> contents.contains_pair(#[trigger] rows[i].0, rows[i].1)
    &&& forall|i: int, j: int|
        0 <= i < j < rows.len() ==> (#[trigger] rows[i]).0 != (#[trigger] rows[j]).0
    &&& forall|id: u64|
        #[trigger] contents.contains_key(id) && contents[id] != Components::none() ==> exists|
            i: int,
        |
            0 <= i < rows.len() && (#[trigger] rows[i]).0 == id
}

/// `hecs::World::new`: a world without entities. (The call numbers the
/// worlds of the process in 64 bits and panics when the numbers run out.)
#[verifier::external_body]
pub(crate) fn world_new() -> (world: World)
    ensures
        world_contents(world) == no_entities(),
{
    World::new()
}

/// `hecs::World::spawn`, with a bundle of five attributes: the world gets
/// one more entity, which holds these five, and the others stay as they
/// are. The handle that comes back named no entity of the world before.
/// The call panics in a world that is full: an entity is counted and
/// numbered in 32 bits.
#[verifier::external_body]
pub(crate) fn world_spawn(
    world: &mut World,
    position: PositionComponent,
    velocity: VelocityComponent,
    acceleration: AccelerationComponent,
    mass: MassComponent,
    render: RenderComponent,
) -> (id: u64)
    requires
        world_contents(*old(world)).dom().finite(),
        world_contents(*old(world)).dom().len() < WORLD_CAPACITY,
    ensures
        !world_contents(*old(world)).contains_key(id),
        world_contents(*final(world)) == world_contents(*old(world)).insert(
            id,
            Components::mover(position, velocity, acceleration, mass, render),
        ),
{
    world.spawn((position, velocity, acceleration, mass, render)).to_bits().get()
}

/// `hecs::World::insert`, with a size and a collision kind: an entity of
/// the world gets the two, in place of those it had, and keeps its other
/// attributes. Bits that name no entity of the world change nothing.
#[verifier::external_body]
pub(crate) fn world_attach_collider(
    world: &mut World,
    id: u64,
    size: SizeComponent,
    collision: CollisionComponent,
) -> (found: bool)
    ensures
        found == world_contents(*old(world)).contains_key(id),
        found ==> world_contents(*final(world)) == world_contents(*old(world)).insert(
            id,
            world_contents(*old(world))[id].with_collider(size, collision),
        ),
        !found ==> world_contents(*final(world)) == world_contents(*old(world)),
{
    match hecs::Entity::from_bits(id) {
        Some(entity) => world.insert(entity, (size, collision)).is_ok(),
        None => false,
    }
}

/// `hecs::World::despawn`: the entity leaves the world with all its
/// attributes. Bits that name no entity of the world change nothing.
#[verifier::external_body]
pub(crate) fn world_despawn(world: &mut World, id: u64) -> (found: bool)
    ensures
        found == world_contents(*old(world)).contains_key(id),
        world_contents(*final(world)) == world_contents(*old(world)).remove(id),
{
    match hecs::Entity::from_bits(id) {
        Some(entity) => world.despawn(entity).is_ok(),
        None => false,
    }
}

/// `hecs::World::query_mut`, asking for each of the seven attributes if it
/// is there: every entity that the world stores comes out once, in no
/// stated order, with copies of its attributes. An entity whose
/// identifier was reserved and that was given nothing yet is not stored,
/// and does not come out. The world stays as it is.
#[verifier::external_body]
pub(crate) fn world_rows(world: &mut World) -> (rows: Vec<(u64, Components)>)
    ensures
        world_contents(*final(world)) == world_contents(*old(world)),
        is_listing(rows@, world_contents(*old(world))),
{
    world.query_mut::<(Option<&PositionComponent>, Option<&VelocityComponent>,
        Option<&AccelerationComponent>, Option<&MassComponent>, Option<&SizeComponent>,
        Option<&CollisionComponent>, Option<&RenderComponent>)>().into_iter().map(
        |(entity, (position, velocity, acceleration, mass, size, collision, render))| (
            entity.to_bits().get(),
            Components {
                position: position.copied(), velocity: velocity.copied(),
                acceleration: acceleration.copied(), mass: mass.copied(),
                size: size.copied(), collision: collision.copied(), render: render.copied(),
            },
        )).collect()
}

/// `hecs::World::query_one_mut`, asking for the position and the velocity
/// of one entity: where it has both, they are overwritten, and nothing
/// else changes. Bits that name no entity of the world, or one without a
/// position or without a velocity, change nothing.
#[verifier::external_body]
pub(crate) fn world_set_motion(
    world: &mut World,
    id: u64,
    position: PositionComponent,
    velocity: VelocityComponent,
) -> (found: bool)
    ensures
        found == (world_contents(*old(world)).contains_key(id) && world_contents(
            *old(world),
        )[id].position.is_some() && world_contents(*old(world))[id].velocity.is_some()),
        found ==> world_contents(*final(world)) == world_contents(*old(world)).insert(
            id,
            world_contents(*old(world))[id].with_motion(position, velocity),
        ),
        !found ==> world_contents(*final(world)) == world_contents(*old(world)),
{
    match hecs::Entity::from_bits(id) {
        Some(entity) => match world.query_one_mut::<(&mut PositionComponent, &mut VelocityComponent)>(entity) {
            Ok((held_position, held_velocity)) => {
                *held_position = position;
                *held_velocity = velocity;
                true
            },
            Err(_) => false,
        },
        None => false,
    }
}

/// Lists the entities of the world that hold an attribute, each with its
/// attributes, in no stated order. The world stays as it is.
pub fn entities(world: &mut World) -> (rows: Vec<(u64, Components)>)
    ensures
        world_contents(*final(world)) == world_contents(*old(world)),
        is_listing(rows@, world_contents(*old(world))),
{
    world_rows(world)
}

} // verus!
